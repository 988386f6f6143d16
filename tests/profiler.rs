use capara::event::{TraceEvent, UnknownEventCode};
use capara::frame::{FrameData, MalformedFrame, RawCode, RawFrame, CO_COROUTINE};
use capara::registrar::Registrar;
use capara::table::{EventOutcome, ProfilerContext};

fn raw(address: usize, flags: i32, stack_top_set: bool, file: &str, func: &str) -> RawFrame {
    RawFrame {
        address,
        code: Some(RawCode {
            flags,
            file_name: Some(file.to_string()),
            func_name: Some(func.to_string()),
        }),
        stack_top_set,
    }
}

fn plain(address: usize, file: &str, func: &str) -> FrameData {
    FrameData::try_from(raw(address, 0, false, file, func)).unwrap()
}

fn generator(address: usize, paused: bool) -> FrameData {
    FrameData::try_from(raw(address, CO_COROUTINE, paused, "gen.py", "G")).unwrap()
}

fn row(file: &str, func: &str, d: Option<u64>, i: u64) -> (String, String, Option<u64>, u64) {
    (file.to_string(), func.to_string(), d, i)
}

#[test]
fn nested_calls_snapshot_in_call_order() {
    let mut c = ProfilerContext::new();
    assert_eq!(c.on_event(TraceEvent::Call, plain(100, "fileA", "A"), 10), EventOutcome::Opened);
    assert_eq!(c.on_event(TraceEvent::Call, plain(200, "fileB", "B"), 20), EventOutcome::Opened);
    assert_eq!(c.on_event(TraceEvent::Return, plain(200, "fileB", "B"), 35), EventOutcome::Closed);
    assert_eq!(c.on_event(TraceEvent::Return, plain(100, "fileA", "A"), 50), EventOutcome::Closed);
    assert_eq!(
        c.entries(),
        vec![row("fileA", "A", Some(40), 0), row("fileB", "B", Some(15), 1)]
    );
}

#[test]
fn suspended_generator_spans_pause() {
    let mut c = ProfilerContext::new();
    assert_eq!(c.on_event(TraceEvent::Call, generator(7, false), 0), EventOutcome::Opened);
    assert_eq!(c.on_event(TraceEvent::Return, generator(7, true), 5), EventOutcome::Suspended);
    assert_eq!(c.entries(), vec![row("gen.py", "G", None, 0)]);
    assert_eq!(c.on_event(TraceEvent::Call, generator(7, false), 9), EventOutcome::Resumed);
    assert_eq!(c.len(), 1);
    assert_eq!(c.on_event(TraceEvent::Return, generator(7, false), 14), EventOutcome::Closed);
    assert_eq!(c.entries(), vec![row("gen.py", "G", Some(14), 0)]);
}

#[test]
fn return_without_call_changes_nothing() {
    let mut c = ProfilerContext::new();
    assert_eq!(c.on_event(TraceEvent::Return, plain(42, "x.py", "X"), 3), EventOutcome::Dangling);
    assert_eq!(c.len(), 0);
    assert!(c.entries().is_empty());
}

#[test]
fn contexts_index_independently() {
    let mut c1 = ProfilerContext::new();
    let mut c2 = ProfilerContext::new();
    c1.on_event(TraceEvent::Call, plain(1, "a.py", "A"), 0);
    c2.on_event(TraceEvent::Call, plain(2, "b.py", "B"), 1);
    c2.on_event(TraceEvent::Return, plain(2, "b.py", "B"), 3);
    c1.on_event(TraceEvent::Return, plain(1, "a.py", "A"), 5);
    assert_eq!(c1.entries(), vec![row("a.py", "A", Some(5), 0)]);
    assert_eq!(c2.entries(), vec![row("b.py", "B", Some(2), 0)]);
}

#[test]
fn uninstall_leaves_open_entries_open() {
    let mut reg = Registrar::new();
    let mut c = ProfilerContext::new();
    reg.install(9);
    assert_eq!(
        reg.dispatch(9, &mut c, TraceEvent::Call, plain(1, "a.py", "A"), 2),
        Some(EventOutcome::Opened)
    );
    reg.uninstall();
    assert!(!reg.is_installed());
    assert_eq!(reg.dispatch(9, &mut c, TraceEvent::Return, plain(1, "a.py", "A"), 8), None);
    assert_eq!(reg.dispatch(9, &mut c, TraceEvent::Call, plain(3, "c.py", "C"), 9), None);
    assert_eq!(c.entries(), vec![row("a.py", "A", None, 0)]);
}

#[test]
fn last_install_wins() {
    let mut reg = Registrar::new();
    let mut c = ProfilerContext::new();
    reg.install(1);
    reg.install(2);
    assert_eq!(reg.selector(), Some(2));
    assert_eq!(reg.dispatch(1, &mut c, TraceEvent::Call, plain(5, "a.py", "A"), 0), None);
    assert_eq!(
        reg.dispatch(2, &mut c, TraceEvent::Call, plain(5, "a.py", "A"), 0),
        Some(EventOutcome::Opened)
    );
    assert_eq!(c.len(), 1);
}

#[test]
fn resumption_keeps_start_and_index() {
    let mut c = ProfilerContext::new();
    c.on_event(TraceEvent::Call, plain(1, "a.py", "A"), 10);
    c.on_event(TraceEvent::Call, plain(2, "b.py", "B"), 11);
    assert_eq!(c.on_event(TraceEvent::Call, plain(1, "a.py", "A"), 30), EventOutcome::Resumed);
    c.on_event(TraceEvent::Return, plain(1, "a.py", "A"), 40);
    assert_eq!(
        c.entries(),
        vec![row("a.py", "A", Some(30), 0), row("b.py", "B", None, 1)]
    );
}

#[test]
fn end_is_set_once() {
    let mut c = ProfilerContext::new();
    c.on_event(TraceEvent::Call, plain(1, "a.py", "A"), 10);
    c.on_event(TraceEvent::Return, plain(1, "a.py", "A"), 15);
    assert_eq!(
        c.on_event(TraceEvent::Return, plain(1, "a.py", "A"), 99),
        EventOutcome::AlreadyClosed
    );
    assert_eq!(c.entries(), vec![row("a.py", "A", Some(5), 0)]);
}

#[test]
fn other_events_are_ignored() {
    let mut c = ProfilerContext::new();
    for e in [TraceEvent::Exception, TraceEvent::Line, TraceEvent::CCall, TraceEvent::CReturn] {
        assert_eq!(c.on_event(e, plain(1, "a.py", "A"), 1), EventOutcome::Ignored);
    }
    assert_eq!(c.len(), 0);
}

#[test]
fn clock_going_back_gives_zero_duration() {
    let mut c = ProfilerContext::new();
    c.on_event(TraceEvent::Call, plain(1, "a.py", "A"), 10);
    c.on_event(TraceEvent::Return, plain(1, "a.py", "A"), 4);
    assert_eq!(c.entries(), vec![row("a.py", "A", Some(0), 0)]);
}

#[test]
fn snapshot_is_repeatable_and_live() {
    let mut c = ProfilerContext::new();
    c.on_event(TraceEvent::Call, plain(1, "a.py", "A"), 10);
    assert_eq!(c.entries(), c.entries());
    c.on_event(TraceEvent::Return, plain(1, "a.py", "A"), 12);
    assert_eq!(c.entries(), vec![row("a.py", "A", Some(2), 0)]);
}

#[test]
fn decode_event_codes() {
    assert_eq!(TraceEvent::try_from(0), Ok(TraceEvent::Call));
    assert_eq!(TraceEvent::try_from(3), Ok(TraceEvent::Return));
    assert_eq!(TraceEvent::try_from(7), Ok(TraceEvent::Opcode));
    assert_eq!(TraceEvent::try_from(8), Err(UnknownEventCode { code: 8 }));
    assert_eq!(TraceEvent::try_from(-1), Err(UnknownEventCode { code: -1 }));
    assert!(TraceEvent::Call.is_profiled());
    assert!(TraceEvent::Return.is_profiled());
    assert!(!TraceEvent::Line.is_profiled());
}

#[test]
fn malformed_frames_are_rejected() {
    let null = RawFrame { address: 0, code: None, stack_top_set: false };
    assert_eq!(FrameData::try_from(null).err(), Some(MalformedFrame::NullFrame));
    let no_code = RawFrame { address: 5, code: None, stack_top_set: false };
    assert_eq!(FrameData::try_from(no_code).err(), Some(MalformedFrame::NullCode));
    assert_eq!(MalformedFrame::NullFrame.message(), "frame is null");
    assert_eq!(MalformedFrame::NullCode.message(), "f_code is null");
}

#[test]
fn frame_resolution_reads_names_and_flags() {
    let f = FrameData::try_from(raw(77, 0x0200 | 0x0001, true, "m.py", "agen")).unwrap();
    assert_eq!(f.identifier, 77);
    assert_eq!(f.file_name, "m.py");
    assert_eq!(f.func_name, "agen");
    assert!(f.is_suspended_resumable);
    let finished = FrameData::try_from(raw(77, 0x0100, false, "m.py", "g")).unwrap();
    assert!(!finished.is_suspended_resumable);
    let ordinary = FrameData::try_from(raw(78, 0x0020, true, "m.py", "f")).unwrap();
    assert!(!ordinary.is_suspended_resumable);
}

#[test]
fn missing_names_use_placeholder() {
    let r = RawFrame {
        address: 3,
        code: Some(RawCode { flags: 0, file_name: None, func_name: None }),
        stack_top_set: false,
    };
    let f = FrameData::try_from(r).unwrap();
    assert_eq!(f.file_name, "<null>");
    assert_eq!(f.func_name, "<null>");
}
