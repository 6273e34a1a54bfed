use skim::collector::{
    error_items, has_error, watcher_step, CancelSource, ExitState, LifecycleTracker, WatcherAction, WatcherEvent,
    WatcherState,
};
use skim::delimiter::Delimiter;
use skim::field::FieldRange;
use skim::header::{parse_decimal, Header};
use skim::ingest::{after_send, build_items, ingest_chunk, on_fill, ChunkOutcome, FillAction, FillResult};
use skim::item::{build_item, BuildOptions, Item, SendRawOrBuild};
use skim::lines::split_lines;
use skim::range_syntax::parse_field_ranges;
use skim::reader::{CollectorInput, SkimItemReader, SkimItemReaderOption};

fn texts(items: &[Item]) -> Vec<Vec<u8>> {
    items.iter().map(|i| i.text().to_vec()).collect()
}

#[test]
fn matching_field_two_of_whitespace_split_lines() {
    let option = SkimItemReaderOption::default().nth("2").build();
    let mode = option.send_mode();
    let items = build_items(b"foo 123\nbar 456\n", b'\n', &mode);
    assert_eq!(items.len(), 2);
    assert_eq!(items[0].text(), b"foo 123");
    assert_eq!(items[1].text(), b"bar 456");
    assert_eq!(items[0].matching_text(), b"123".to_vec());
    assert_eq!(items[1].matching_text(), b"456".to_vec());
    assert_eq!(items[0].matching_ranges(), Some(&[(4usize, 7usize)][..]));
}

#[test]
fn split_lines_newline_rules() {
    assert_eq!(split_lines(b"a\nb", b'\n'), vec![b"a".to_vec(), b"b".to_vec()]);
    assert_eq!(split_lines(b"a\n", b'\n'), vec![b"a".to_vec()]);
    assert_eq!(split_lines(b"a\n\nb\n", b'\n'), vec![b"a".to_vec(), b"".to_vec(), b"b".to_vec()]);
    assert_eq!(split_lines(b"", b'\n'), Vec::<Vec<u8>>::new());
    assert_eq!(split_lines(b"\n", b'\n'), vec![b"".to_vec()]);
}

#[test]
fn split_lines_null_terminator() {
    assert_eq!(split_lines(b"a b\0c\nd\0", 0), vec![b"a b".to_vec(), b"c\nd".to_vec()]);
    assert_eq!(split_lines(b"x\0tail", 0), vec![b"x".to_vec(), b"tail".to_vec()]);
}

#[test]
fn chunked_input_gives_same_lines() {
    let whole = b"one\ntwo\nthree\nfour";
    let chunks: [&[u8]; 3] = [b"one\ntwo\n", b"three\n", b"four"];
    let mut pieces = Vec::new();
    for c in chunks.iter() {
        pieces.extend(split_lines(c, b'\n'));
    }
    assert_eq!(pieces, split_lines(whole, b'\n'));
}

#[test]
fn plain_build_matches_raw_text() {
    let option = SkimItemReaderOption::default();
    let opts = option.build_options();
    let built = build_item(b"hello world", &SendRawOrBuild::Build(opts));
    let raw = build_item(b"hello world", &SendRawOrBuild::Raw);
    assert_eq!(built.text(), b"hello world");
    assert_eq!(raw.text(), b"hello world");
    assert_eq!(built.output(), b"hello world");
    assert_eq!(built.matching_ranges(), None);
    assert!(option.is_simple());
}

#[test]
fn transform_fields_select_display_text() {
    let option = SkimItemReaderOption::default().with_nth("2..").build();
    let items = build_items(b"a b c\n", b'\n', &option.send_mode());
    assert_eq!(texts(&items), vec![b"b c".to_vec()]);
    assert_eq!(items[0].output(), b"a b c");
    let option = SkimItemReaderOption::default().with_nth("1").build();
    let items = build_items(b"a b c", b'\n', &option.send_mode());
    assert_eq!(texts(&items), vec![b"a ".to_vec()]);
}

#[test]
fn custom_delimiter_and_fallback() {
    let option = SkimItemReaderOption::default().delimiter(",").nth("-1").build();
    let items = build_items(b"x,y,z", b'\n', &option.send_mode());
    assert_eq!(items[0].matching_text(), b"z".to_vec());
    let bad = SkimItemReaderOption::default().delimiter("(").nth("2").build();
    let items = build_items(b"p q", b'\n', &bad.send_mode());
    assert_eq!(items[0].matching_text(), b"q".to_vec());
    assert_eq!(Delimiter::whitespace().pattern(), r"[\t\n ]+");
    assert!(Delimiter::new("(").is_none());
}

#[test]
fn field_range_index_pairs() {
    assert_eq!(FieldRange::Single(2).to_index_pair(3), Some((1, 2)));
    assert_eq!(FieldRange::Single(0).to_index_pair(3), None);
    assert_eq!(FieldRange::Single(4).to_index_pair(3), None);
    assert_eq!(FieldRange::Single(-1).to_index_pair(3), Some((2, 3)));
    assert_eq!(FieldRange::LeftInf(5).to_index_pair(3), Some((0, 3)));
    assert_eq!(FieldRange::RightInf(2).to_index_pair(3), Some((1, 3)));
    assert_eq!(FieldRange::Both(2, 9).to_index_pair(3), Some((1, 3)));
    assert_eq!(FieldRange::Both(3, 2).to_index_pair(3), None);
    assert_eq!(FieldRange::Single(-5).to_index_pair(3), None);
}

#[test]
fn range_lists_parse_and_drop_bad_entries() {
    assert_eq!(
        parse_field_ranges("1..3,-1,x,..2,4..,7"),
        vec![
            FieldRange::Both(1, 3),
            FieldRange::Single(-1),
            FieldRange::LeftInf(2),
            FieldRange::RightInf(4),
            FieldRange::Single(7),
        ]
    );
    assert_eq!(parse_field_ranges(".."), vec![FieldRange::RightInf(0)]);
    assert_eq!(parse_field_ranges("99999999999"), vec![FieldRange::Single(1)]);
    assert_eq!(parse_field_ranges("1..a"), vec![]);
}

#[test]
fn chunk_outcomes() {
    let (tx, rx) = crossbeam_channel::unbounded();
    let option = SkimItemReaderOption::default();
    let mode = option.send_mode();
    assert_eq!(ingest_chunk(b"", b'\n', &tx, &mode).outcome, ChunkOutcome::EndOfInput);
    assert_eq!(ingest_chunk(&[b'x', b'\n', 0xff, b'\n'], b'\n', &tx, &mode).outcome, ChunkOutcome::InvalidText);
    let d = ingest_chunk(b"a\nb\n", b'\n', &tx, &mode);
    assert_eq!(d.outcome, ChunkOutcome::Delivered);
    assert_eq!(d.accepted, 2);
    assert!(ChunkOutcome::Delivered.keep_reading());
    assert!(!ChunkOutcome::EndOfInput.keep_reading());
    let got: Vec<Vec<u8>> = rx.try_iter().map(|i| i.text().to_vec()).collect();
    assert_eq!(got, vec![b"a".to_vec(), b"b".to_vec()]);
}

#[test]
fn dropped_receiver_stops_sending() {
    let (tx, rx) = crossbeam_channel::unbounded();
    drop(rx);
    let option = SkimItemReaderOption::default();
    let d = ingest_chunk(b"a\nb\n", b'\n', &tx, &option.send_mode());
    assert_eq!(d.outcome, ChunkOutcome::ReceiverGone);
    assert_eq!(d.accepted, 0);
}

#[test]
fn option_builders() {
    let o = SkimItemReaderOption::default();
    assert_eq!(o.get_line_ending(), b'\n');
    let o = o.read0(true);
    assert_eq!(o.get_line_ending(), 0);
    let o = o.read0(false).line_ending(b';').show_error(true).ansi(true);
    assert_eq!(o.get_line_ending(), b';');
    assert!(o.get_show_error());
    assert!(!o.is_simple());
    let o = o.ansi(false).transform_fields(vec![FieldRange::Single(1)]);
    assert!(!o.is_simple());
    let o = o.transform_fields(vec![]).matching_fields(vec![FieldRange::Single(1)]);
    assert!(!o.is_simple());
    assert!(matches!(o.send_mode(), SendRawOrBuild::Build(_)));
    let reader = SkimItemReader::new(SkimItemReaderOption::default());
    assert!(reader.shared_option().is_simple());
    let reader = reader.option(SkimItemReaderOption::default().ansi(true));
    assert!(!reader.shared_option().is_simple());
    assert!(SkimItemReader::default().shared_option().is_simple());
    let input: CollectorInput<Vec<u8>> = CollectorInput::Command("ls".to_string());
    assert!(matches!(input, CollectorInput::Command(_)));
}

#[test]
fn lifecycle_count_returns_to_zero() {
    let mut t = LifecycleTracker::new();
    let ingest = t.register();
    let watcher = t.register();
    t.start(ingest);
    t.start(watcher);
    assert_eq!(t.active(), 2);
    t.finish(ingest);
    assert!(!t.all_stopped());
    t.finish(watcher);
    assert_eq!(t.active(), 0);
    assert!(t.all_stopped());
}

#[test]
fn watcher_kills_on_any_cancel_and_surfaces_errors() {
    for src in [CancelSource::IngestionDone, CancelSource::Caller] {
        let (s, a) = watcher_step(WatcherState::Waiting, WatcherEvent::Cancel(src), true);
        assert_eq!((s, a), (WatcherState::Reaping, WatcherAction::KillAndReap));
    }
    let (s, a) = watcher_step(WatcherState::Reaping, WatcherEvent::Reaped(ExitState::Exited(false)), true);
    assert_eq!((s, a), (WatcherState::Stopped, WatcherAction::SurfaceErrors));
    let (_, a) = watcher_step(WatcherState::Reaping, WatcherEvent::Reaped(ExitState::Exited(false)), false);
    assert_eq!(a, WatcherAction::Stop);
    let (_, a) = watcher_step(WatcherState::Reaping, WatcherEvent::Reaped(ExitState::Exited(true)), true);
    assert_eq!(a, WatcherAction::Stop);
    let (s, a) = watcher_step(WatcherState::Stopped, WatcherEvent::Cancel(CancelSource::Caller), true);
    assert_eq!((s, a), (WatcherState::Stopped, WatcherAction::Ignore));
    assert!(has_error(ExitState::NotExited));
    assert!(!has_error(ExitState::Unknown));
}

#[test]
fn failing_command_stderr_becomes_items() {
    let items = error_items(b"err\nsecond\n");
    assert_eq!(texts(&items), vec![b"err".to_vec(), b"second".to_vec()]);
    let items = error_items(&[b'a', 0xff, b'\n']);
    assert_eq!(texts(&items), vec!["a\u{fffd}".as_bytes().to_vec()]);
}

#[test]
fn header_options() {
    assert_eq!(parse_decimal("12"), Some(12));
    assert_eq!(parse_decimal("+3"), Some(3));
    assert_eq!(parse_decimal("x"), None);
    assert_eq!(parse_decimal(""), None);
    assert_eq!(parse_decimal("99999999999999999999999"), None);
    let h = Header::new().with_options(Some("0"), "reverse-list", Some("a\nb"));
    assert_eq!(h.adjust_row(1, 10), 1);
    assert_eq!(h.lines_of_header(), 2);
    let h = h.item_pool(Some(3));
    assert_eq!(h.lines_of_header(), 5);
    let h = Header::new().with_options(Some("bad"), "default", None);
    assert_eq!(h.adjust_row(1, 10), 8);
    assert_eq!(h.lines_of_header(), 0);
}

fn received(chunks: &[&[u8]], t: u8, option: &SkimItemReaderOption) -> Vec<Item> {
    let (tx, rx) = crossbeam_channel::unbounded();
    let mode = option.send_mode();
    for c in chunks {
        assert_eq!(ingest_chunk(c, t, &tx, &mode).outcome, ChunkOutcome::Delivered);
    }
    rx.try_iter().collect()
}

#[test]
fn sent_items_do_not_depend_on_read_boundaries() {
    let option = SkimItemReaderOption::default();
    let split = received(&[b"abc\n", b"de\n"], b'\n', &option);
    let whole = received(&[b"abc\nde\n"], b'\n', &option);
    assert_eq!(texts(&split), vec![b"abc".to_vec(), b"de".to_vec()]);
    assert_eq!(texts(&split), texts(&whole));
}

#[test]
fn sent_items_one_per_segment() {
    let option = SkimItemReaderOption::default().read0(true);
    let items = received(&[b"a\0b\0"], 0, &option);
    assert_eq!(texts(&items), vec![b"a".to_vec(), b"b".to_vec()]);
    let items = received(&[b"x y\0", b"z\0"], 0, &option);
    assert_eq!(texts(&items), vec![b"x y".to_vec(), b"z".to_vec()]);
    let option = SkimItemReaderOption::default();
    let items = received(&[b"a\n\nb"], b'\n', &option);
    assert_eq!(texts(&items), vec![b"a".to_vec(), b"".to_vec(), b"b".to_vec()]);
}

#[test]
fn sent_items_of_matching_field_scenario() {
    let option = SkimItemReaderOption::default().nth("2");
    let items = received(&[b"foo 123\nbar 456\n"], b'\n', &option);
    assert_eq!(texts(&items), vec![b"foo 123".to_vec(), b"bar 456".to_vec()]);
    assert_eq!(items[0].matching_text(), b"123".to_vec());
    assert_eq!(items[1].matching_text(), b"456".to_vec());
}

#[test]
fn invalid_chunk_sends_nothing() {
    let (tx, rx) = crossbeam_channel::unbounded();
    let option = SkimItemReaderOption::default();
    let d = ingest_chunk(&[b'o', b'k', b'\n', 0xc3, b'\n'], b'\n', &tx, &option.send_mode());
    assert_eq!(d.outcome, ChunkOutcome::InvalidText);
    assert_eq!(rx.try_iter().count(), 0);
}

#[test]
fn fill_decisions() {
    assert_eq!(on_fill(FillResult::Filled), FillAction::Proceed);
    assert_eq!(on_fill(FillResult::Interrupted), FillAction::Retry);
    assert_eq!(on_fill(FillResult::Failed), FillAction::Stop);
}

#[test]
fn send_answers_decide_the_outcome() {
    assert_eq!(after_send(0, 3, true), None);
    assert_eq!(after_send(2, 3, true), Some(ChunkOutcome::Delivered));
    assert_eq!(after_send(1, 3, false), Some(ChunkOutcome::ReceiverGone));
    assert_eq!(after_send(2, 3, false), Some(ChunkOutcome::ReceiverGone));
}
