//! The reader's configuration and the choice between the raw and the
//! field-aware path.
use vstd::prelude::*;

use crate::delimiter::{default_pattern, pattern_compiles, Delimiter};
use crate::field::FieldRange;
use crate::item::{BuildOptions, SendRawOrBuild};
use crate::range_syntax::{parse_field_ranges, parse_list};

verus! {

/// Where the lines come from: an open byte stream, or a shell command whose
/// standard output is read.
pub enum CollectorInput<R> {
    Pipe(R),
    Command(String),
}

/// How lines are read and turned into items.
#[derive(Debug)]
pub struct SkimItemReaderOption {
    use_ansi_color: bool,
    transform_fields: Vec<FieldRange>,
    matching_fields: Vec<FieldRange>,
    delimiter: Delimiter,
    line_ending: u8,
    show_error: bool,
}

impl Default for SkimItemReaderOption {
    fn default() -> (r: Self)
        ensures
            r.line_ending_view() == 10u8,
            !r.ansi_view(),
            r.transform_view().len() == 0,
            r.matching_view().len() == 0,
            r.delimiter_view() == default_pattern(),
            !r.show_error_view(),
    {
        SkimItemReaderOption {
            line_ending: 10u8,
            use_ansi_color: false,
            transform_fields: Vec::new(),
            matching_fields: Vec::new(),
            delimiter: Delimiter::whitespace(),
            show_error: false,
        }
    }
}

impl SkimItemReaderOption {
    pub closed spec fn line_ending_view(&self) -> u8 {
        self.line_ending
    }

    pub closed spec fn ansi_view(&self) -> bool {
        self.use_ansi_color
    }

    pub closed spec fn transform_view(&self) -> Seq<FieldRange> {
        self.transform_fields@
    }

    pub closed spec fn matching_view(&self) -> Seq<FieldRange> {
        self.matching_fields@
    }

    pub closed spec fn delimiter_view(&self) -> Seq<char> {
        self.delimiter@
    }

    pub closed spec fn show_error_view(&self) -> bool {
        self.show_error
    }

    /// Whether two configurations agree on every setting but the ones named.
    pub open spec fn same_but(&self, o: &Self, le: bool, an: bool, tr: bool, ma: bool, de: bool, se: bool) -> bool {
        &&& (le || self.line_ending_view() == o.line_ending_view())
        &&& (an || self.ansi_view() == o.ansi_view())
        &&& (tr || self.transform_view() == o.transform_view())
        &&& (ma || self.matching_view() == o.matching_view())
        &&& (de || self.delimiter_view() == o.delimiter_view())
        &&& (se || self.show_error_view() == o.show_error_view())
    }

    /// Lines end at `line_ending` instead of a newline.
    pub fn line_ending(self, line_ending: u8) -> (r: Self)
        ensures
            r.line_ending_view() == line_ending,
            r.same_but(&self, true, false, false, false, false, false),
    {
        let mut s = self;
        s.line_ending = line_ending;
        s
    }

    /// Whether colour escapes in the lines are read.
    pub fn ansi(self, enable: bool) -> (r: Self)
        ensures
            r.ansi_view() == enable,
            r.same_but(&self, false, true, false, false, false, false),
    {
        let mut s = self;
        s.use_ansi_color = enable;
        s
    }

    /// The pattern that splits a line into fields; an empty one keeps the
    /// current delimiter, a malformed one gives the default whitespace run.
    pub fn delimiter(self, delimiter: &str) -> (r: Self)
        ensures
            delimiter@.len() == 0 ==> r.delimiter_view() == self.delimiter_view(),
            delimiter@.len() > 0 && pattern_compiles(delimiter@) ==> r.delimiter_view() == delimiter@,
            delimiter@.len() > 0 && !pattern_compiles(delimiter@) ==> r.delimiter_view() == default_pattern(),
            r.same_but(&self, false, false, false, false, true, false),
    {
        let mut s = self;
        if delimiter.unicode_len() > 0 {
            s.delimiter = match Delimiter::new(delimiter) {
                Some(d) => d,
                None => Delimiter::whitespace(),
            };
        }
        s
    }

    /// The fields shown, in the range syntax; an empty text keeps them.
    pub fn with_nth(self, with_nth: &str) -> (r: Self)
        ensures
            with_nth@.len() == 0 ==> r.transform_view() == self.transform_view(),
            with_nth@.len() > 0 ==> r.transform_view() == parse_list(with_nth@),
            r.same_but(&self, false, false, true, false, false, false),
    {
        let mut s = self;
        if with_nth.unicode_len() > 0 {
            s.transform_fields = parse_field_ranges(with_nth);
        }
        s
    }

    /// The fields shown.
    pub fn transform_fields(self, transform_fields: Vec<FieldRange>) -> (r: Self)
        ensures
            r.transform_view() == transform_fields@,
            r.same_but(&self, false, false, true, false, false, false),
    {
        let mut s = self;
        s.transform_fields = transform_fields;
        s
    }

    /// The fields matched against, in the range syntax; an empty text keeps
    /// them.
    pub fn nth(self, nth: &str) -> (r: Self)
        ensures
            nth@.len() == 0 ==> r.matching_view() == self.matching_view(),
            nth@.len() > 0 ==> r.matching_view() == parse_list(nth@),
            r.same_but(&self, false, false, false, true, false, false),
    {
        let mut s = self;
        if nth.unicode_len() > 0 {
            s.matching_fields = parse_field_ranges(nth);
        }
        s
    }

    /// The fields matched against.
    pub fn matching_fields(self, matching_fields: Vec<FieldRange>) -> (r: Self)
        ensures
            r.matching_view() == matching_fields@,
            r.same_but(&self, false, false, false, true, false, false),
    {
        let mut s = self;
        s.matching_fields = matching_fields;
        s
    }

    /// Lines end at a null byte when enabled, at a newline otherwise.
    pub fn read0(self, enable: bool) -> (r: Self)
        ensures
            r.line_ending_view() == (if enable { 0u8 } else { 10u8 }),
            r.same_but(&self, true, false, false, false, false, false),
    {
        let mut s = self;
        if enable {
            s.line_ending = 0u8;
        } else {
            s.line_ending = 10u8;
        }
        s
    }

    /// Whether a failing command's standard error is turned into items.
    pub fn show_error(self, show_error: bool) -> (r: Self)
        ensures
            r.show_error_view() == show_error,
            r.same_but(&self, false, false, false, false, false, true),
    {
        let mut s = self;
        s.show_error = show_error;
        s
    }

    /// The finished configuration.
    pub fn build(self) -> (r: Self)
        ensures
            r == self,
    {
        self
    }

    /// Whether lines can go out verbatim: no colour, no field selection.
    pub fn is_simple(&self) -> (r: bool)
        ensures
            r <==> !self.ansi_view() && self.matching_view().len() == 0 && self.transform_view().len() == 0,
    {
        !self.use_ansi_color && self.matching_fields.len() == 0 && self.transform_fields.len() == 0
    }

    /// The terminator that ends a line.
    pub fn get_line_ending(&self) -> (r: u8)
        ensures
            r == self.line_ending_view(),
    {
        self.line_ending
    }

    /// Whether a failing command's standard error becomes items.
    pub fn get_show_error(&self) -> (r: bool)
        ensures
            r == self.show_error_view(),
    {
        self.show_error
    }

    /// The field-aware builder's settings.
    pub fn build_options(&self) -> (r: BuildOptions<'_>)
        ensures
            r.ansi_enabled == self.ansi_view(),
            r.trans_fields@ == self.transform_view(),
            r.matching_fields@ == self.matching_view(),
            r.delimiter@ == self.delimiter_view(),
    {
        BuildOptions {
            ansi_enabled: self.use_ansi_color,
            trans_fields: self.transform_fields.as_slice(),
            matching_fields: self.matching_fields.as_slice(),
            delimiter: &self.delimiter,
        }
    }

    /// How lines of a stream become items: verbatim when the configuration
    /// is simple, through the field-aware builder otherwise.
    pub fn send_mode(&self) -> (r: SendRawOrBuild<'_>)
        ensures
            r matches SendRawOrBuild::Raw <==> !self.ansi_view() && self.matching_view().len() == 0
                && self.transform_view().len() == 0,
            r matches SendRawOrBuild::Build(o) ==> o.ansi_enabled == self.ansi_view()
                && o.trans_fields@ == self.transform_view() && o.matching_fields@ == self.matching_view()
                && o.delimiter@ == self.delimiter_view(),
    {
        if self.is_simple() {
            SendRawOrBuild::Raw
        } else {
            SendRawOrBuild::Build(self.build_options())
        }
    }
}

/// The reader facade: a configuration shared by the threads it starts.
pub struct SkimItemReader {
    option: std::sync::Arc<SkimItemReaderOption>,
}

impl Default for SkimItemReader {
    fn default() -> (r: Self)
        ensures
            r.option_view().line_ending_view() == 10u8,
            r.option_view().is_default_view(),
    {
        SkimItemReader { option: std::sync::Arc::new(SkimItemReaderOption::default()) }
    }
}

impl SkimItemReaderOption {
    /// Every setting at its default.
    pub open spec fn is_default_view(&self) -> bool {
        &&& self.line_ending_view() == 10u8
        &&& !self.ansi_view()
        &&& self.transform_view().len() == 0
        &&& self.matching_view().len() == 0
        &&& self.delimiter_view() == default_pattern()
        &&& !self.show_error_view()
    }
}

impl SkimItemReader {
    pub closed spec fn option_view(&self) -> SkimItemReaderOption {
        *self.option
    }

    pub fn new(option: SkimItemReaderOption) -> (r: Self)
        ensures
            r.option_view() == option,
    {
        SkimItemReader { option: std::sync::Arc::new(option) }
    }

    /// The same reader with another configuration.
    pub fn option(self, option: SkimItemReaderOption) -> (r: Self)
        ensures
            r.option_view() == option,
    {
        SkimItemReader { option: std::sync::Arc::new(option) }
    }

    /// The configuration, shared.
    pub fn shared_option(&self) -> (r: std::sync::Arc<SkimItemReaderOption>)
        ensures
            *r == self.option_view(),
    {
        self.option.clone()
    }
}

} // verus!
