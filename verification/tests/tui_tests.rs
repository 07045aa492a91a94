use midiedit::args::{ReadFile, TestFile, TransposeFile};
use midiedit::events::RangeArgs;
use midiedit::tui::{App, Key};

#[test]
fn app_starts_at_zero() {
    let app = App::default();
    assert_eq!(app.tempo, 0);
    assert!(!app.exit);
}

#[test]
fn counter_steps() {
    let mut app = App::default();
    app.increment_counter();
    app.increment_counter();
    assert_eq!(app.tempo, 2);
    app.decrement_counter();
    assert_eq!(app.tempo, 1);
    assert!(!app.exit);
}

#[test]
fn exit_sets_the_flag() {
    let mut app = App::default();
    app.increment_counter();
    app.exit();
    assert!(app.exit);
    assert_eq!(app.tempo, 1);
}

#[test]
fn keys_drive_the_state() {
    let mut app = App::default();
    app.handle_key_event(Key::Right);
    app.handle_key_event(Key::Right);
    app.handle_key_event(Key::Left);
    assert_eq!(app.tempo, 1);
    assert!(!app.exit);
    app.handle_key_event(Key::Char('x'));
    assert!(!app.exit);
    app.handle_key_event(Key::Other);
    assert!(!app.exit);
    app.handle_key_event(Key::Char('q'));
    assert!(app.exit);
    assert_eq!(app.tempo, 1);
}

#[test]
fn command_carriers_hold_their_fields() {
    let range = RangeArgs { track: vec![0, 2], start: Some(10), end: None };
    let t = TransposeFile { file: String::from("song.mid"), amt: -3, range };
    assert_eq!(t.file, "song.mid");
    assert_eq!(t.amt, -3);
    assert_eq!(t.range.track, vec![0, 2]);
    assert_eq!(t.range.start, Some(10));
    assert_eq!(t.range.end, None);
    let r = ReadFile { file: String::from("a.mid") };
    let c = TestFile { file: String::from("b.mid") };
    assert_eq!(r.file, "a.mid");
    assert_eq!(c.file, "b.mid");
}
