use speaking_time::codec::DecodeError;
use speaking_time::to_display;
use speaking_time::to_display_h_m_s;
use speaking_time::Order;
use speaking_time::Speech;
use speaking_time::TSpeakers;
use speaking_time::TemplateApp;
use speaking_time::Timespan;

#[test]
fn test_to_display() {
    assert_eq!("02:25", to_display(145));
    assert_eq!("00:45", to_display(45));
}

#[test]
fn test_to_display_h_m_s() {
    assert_eq!("03h42m22s", to_display_h_m_s(13342));
    assert_eq!("12m56s", to_display_h_m_s(776));
}

#[test]
fn test_export_to_csv() {
    let mut speech = Speech::new();
    speech.duration = 63;
    speech.category = "h".to_string();
    assert_eq!("63,\"h\"", speech.export_to_csv());
}

#[test]
fn timer_starts_stopped_and_empty() {
    let t = Timespan::new();
    assert_eq!(t.elapsed, 0);
    assert!(!t.is_running());
}

#[test]
fn timer_start_then_immediate_stop_adds_nothing() {
    let mut t = Timespan::new();
    t.start();
    assert!(t.is_running());
    t.stop();
    assert!(!t.is_running());
    assert_eq!(t.elapsed, 0);
}

#[test]
fn timer_accumulates_sum_of_whole_second_intervals() {
    let mut t = Timespan::new();
    t.start();
    t.accumulate(5);
    assert_eq!(t.elapsed, 5);
    assert!(!t.is_running());
    t.start();
    t.accumulate(3);
    assert_eq!(t.elapsed, 8);
    t.start();
    t.accumulate(0);
    assert_eq!(t.elapsed, 8);
}

#[test]
fn timer_accumulate_saturates() {
    let mut t = Timespan::new();
    t.elapsed = u64::MAX - 1;
    t.start();
    t.accumulate(10);
    assert_eq!(t.elapsed, u64::MAX);
}

#[test]
fn timer_reset_discards_everything() {
    let mut t = Timespan::new();
    t.start();
    t.accumulate(7);
    t.start();
    t.reset();
    assert_eq!(t.elapsed, 0);
    assert!(!t.is_running());
}

#[test]
fn timer_start_or_stop_toggles() {
    let mut t = Timespan::new();
    t.start_or_stop();
    assert!(t.is_running());
    t.start_or_stop();
    assert!(!t.is_running());
}

fn roster_abc() -> Vec<(String, String)> {
    vec![
        ("A".to_string(), "x".to_string()),
        ("B".to_string(), "y".to_string()),
        ("C".to_string(), "z".to_string()),
    ]
}

#[test]
fn queue_lookups_resolve_against_roster() {
    let roster = roster_abc();
    let mut order: Order = Order::new();
    roster.speaker_wants_to_speak(2, &mut order);
    roster.speaker_wants_to_speak(0, &mut order);
    roster.speaker_wants_to_speak(1, &mut order);
    assert_eq!(roster.current_speaker(&order).0, "C");
    assert_eq!(roster.next_speaker(&order).0, "A");
}

#[test]
fn queue_lookups_default_to_empty_placeholder() {
    let roster = roster_abc();
    let order: Order = Order::new();
    assert_eq!(roster.current_speaker(&order), (String::new(), String::new()));
    assert_eq!(roster.next_speaker(&order), (String::new(), String::new()));
    assert_eq!(roster.get_speaker(17), (String::new(), String::new()));
}

#[test]
fn delete_speaker_reindexes_queue() {
    let mut roster = roster_abc();
    let mut order: Order = Order::new();
    for i in [2usize, 0, 1, 1] {
        roster.speaker_wants_to_speak(i, &mut order);
    }
    roster.delete_speaker(1, &mut order);
    assert_eq!(roster.len(), 2);
    assert_eq!(roster[0].0, "A");
    assert_eq!(roster[1].0, "C");
    let left: Vec<usize> = order.iter().copied().collect();
    assert_eq!(left, vec![1, 0]);
    assert_eq!(roster.current_speaker(&order).0, "C");
    assert_eq!(roster.next_speaker(&order).0, "A");
}

#[test]
fn delete_speaker_out_of_range_is_a_no_op() {
    let mut roster = roster_abc();
    let mut order: Order = Order::new();
    roster.speaker_wants_to_speak(2, &mut order);
    roster.delete_speaker(9, &mut order);
    assert_eq!(roster.len(), 3);
    assert_eq!(order.len(), 1);
}

#[test]
fn speaker_spoke_pops_the_front() {
    let mut roster = roster_abc();
    let mut order: Order = Order::new();
    roster.speaker_wants_to_speak(1, &mut order);
    roster.speaker_wants_to_speak(2, &mut order);
    let s = roster.speaker_spoke(&mut order);
    assert_eq!(s.0, "B");
    assert_eq!(s.1, "y");
    assert_eq!(order.len(), 1);
    roster.add_speaker(("D".to_string(), "w".to_string()));
    assert_eq!(roster.get_speaker(3).0, "D");
    let s2 = roster.speaker_spoke(&mut order);
    assert_eq!(s2.0, "C");
    let s3 = roster.speaker_spoke(&mut order);
    assert_eq!(s3, (String::new(), String::new()));
}

#[test]
fn timespan_record_round_trips() {
    let mut t = Timespan::new();
    t.elapsed = 12345;
    let text = t.encode();
    assert_eq!(text, "elapsed=5:12345;");
    let back = Timespan::decode(&text).unwrap();
    assert_eq!(back.elapsed, 12345);
    assert!(!back.is_running());
    assert_eq!(back.encode(), text);
}

#[test]
fn speech_record_round_trips_with_awkward_category() {
    let mut sp = Speech::new();
    sp.duration = 63;
    sp.category = "a;b=c:d\"e".to_string();
    let text = sp.encode();
    let back = Speech::decode(&text).unwrap();
    assert_eq!(back.duration, 63);
    assert_eq!(back.category, "a;b=c:d\"e");
    assert_eq!(back.encode(), text);
}

#[test]
fn decode_rejects_unknown_field() {
    assert!(matches!(Timespan::decode("speed=1:5;"), Err(DecodeError::UnknownField)));
    assert!(matches!(
        Speech::decode("duration=2:63;pitch=1:h;"),
        Err(DecodeError::UnknownField)
    ));
}

#[test]
fn decode_rejects_duplicate_field() {
    assert!(matches!(
        Timespan::decode("elapsed=1:5;elapsed=1:6;"),
        Err(DecodeError::DuplicateField)
    ));
    assert!(matches!(
        Speech::decode("duration=2:63;category=1:h;category=1:g;"),
        Err(DecodeError::DuplicateField)
    ));
}

#[test]
fn decode_rejects_missing_field() {
    assert!(matches!(Timespan::decode(""), Err(DecodeError::MissingField)));
    assert!(matches!(Speech::decode("duration=2:63;"), Err(DecodeError::MissingField)));
    assert!(matches!(Speech::decode("category=1:h;"), Err(DecodeError::MissingField)));
}

#[test]
fn decode_rejects_malformed_text() {
    assert!(matches!(Timespan::decode("elapsed"), Err(DecodeError::Malformed)));
    assert!(matches!(Timespan::decode("elapsed=x:5;"), Err(DecodeError::Malformed)));
    assert!(matches!(Timespan::decode("elapsed=9:5;"), Err(DecodeError::Malformed)));
    assert!(matches!(
        Timespan::decode("elapsed=20:99999999999999999999;"),
        Err(DecodeError::Malformed)
    ));
}

#[test]
fn session_default_is_empty() {
    let s = TemplateApp::default();
    assert_eq!(s.timespan.elapsed, 0);
    assert!(!s.timespan.is_running());
    assert!(s.speeches.is_empty());
    assert_eq!(s.current_speaker, "");
    assert!(s.next_speakers.is_empty());
    assert!(s.categories.is_empty());
    assert!(s.deleted_speeches.is_empty());
    assert!(s.speakers.is_empty());
}

#[test]
fn commit_speech_records_and_advances_the_turn() {
    let mut s = TemplateApp::default();
    s.next_speakers.push("B".to_string());
    s.current_speaker = "A".to_string();
    s.timespan.start();
    s.timespan.accumulate(63);
    s.finalize_current_speech();
    assert_eq!(s.speeches.len(), 1);
    assert_eq!(s.speeches[0].duration, 63);
    assert_eq!(s.speeches[0].category, "");
    assert_eq!(s.timespan.elapsed, 0);
    assert_eq!(s.current_speaker, "B");
    assert!(s.next_speakers.is_empty());
}

#[test]
fn commit_speech_with_zero_duration_is_a_no_op() {
    let mut s = TemplateApp::default();
    s.commit_speech(0);
    assert!(s.speeches.is_empty());
    s.commit_speech(7);
    assert_eq!(s.speeches.len(), 1);
    assert_eq!(s.current_speaker, "");
}

#[test]
fn toggle_timer_gives_the_turn_to_the_queue_front() {
    let mut s = TemplateApp::default();
    s.next_speakers.push("A".to_string());
    s.next_speakers.push("B".to_string());
    s.toggle_timer();
    assert!(s.timespan.is_running());
    assert_eq!(s.current_speaker, "A");
    assert_eq!(s.next_speakers, vec!["B".to_string()]);
    s.toggle_timer();
    assert!(!s.timespan.is_running());
    assert_eq!(s.current_speaker, "A");
}

#[test]
fn pending_deletions_apply_in_one_batch() {
    let mut s = TemplateApp::default();
    for d in [10u64, 20, 30, 40] {
        s.commit_speech(d);
    }
    s.record_speech_deletion(3);
    s.record_speech_deletion(1);
    assert_eq!(s.deleted_speeches, vec![3, 1]);
    s.apply_pending_deletions();
    assert!(s.deleted_speeches.is_empty());
    let left: Vec<u64> = s.speeches.iter().map(|x| x.duration).collect();
    assert_eq!(left, vec![10, 30]);
}

#[test]
fn category_totals_sum_exact_matches_only() {
    let mut s = TemplateApp::default();
    for (d, c) in [(10u64, "h"), (20, "f"), (30, "h"), (40, "H")] {
        s.commit_speech(d);
        let last = s.speeches.len() - 1;
        s.set_speech_category(last, c.to_string());
    }
    assert_eq!(s.category_total(&"h".to_string()), 40);
    assert_eq!(s.category_total(&"f".to_string()), 20);
    assert_eq!(s.category_total(&"H".to_string()), 40);
    assert_eq!(s.category_total(&"none".to_string()), 0);
}

#[test]
fn export_lists_speeches_in_order() {
    let mut s = TemplateApp::default();
    s.commit_speech(63);
    s.set_speech_category(0, "h".to_string());
    s.commit_speech(5);
    assert_eq!(s.export_speeches_csv(), "63,\"h\"\n5,\"\"\n");
}

#[test]
fn clear_discards_timer_and_speeches() {
    let mut s = TemplateApp::default();
    s.commit_speech(9);
    s.timespan.start();
    s.clear_speeches();
    assert!(s.speeches.is_empty());
    assert_eq!(s.timespan.elapsed, 0);
    assert!(!s.timespan.is_running());
}

#[test]
fn register_new_speaker_keeps_the_edit_fields() {
    let mut s = TemplateApp::default();
    s.new_speaker = "A".to_string();
    s.categorie_new_speaker = "x".to_string();
    s.register_new_speaker();
    assert_eq!(s.speakers, vec![("A".to_string(), "x".to_string())]);
    assert_eq!(s.new_speaker, "A");
    s.enqueue_next_speaker("A".to_string());
    assert_eq!(s.next_speakers, vec!["A".to_string()]);
}

#[test]
fn set_speech_category_out_of_range_is_a_no_op() {
    let mut s = TemplateApp::default();
    s.commit_speech(3);
    s.set_speech_category(5, "h".to_string());
    assert_eq!(s.speeches[0].category, "");
}

#[test]
fn displays_pad_and_wrap() {
    assert_eq!("00:00", to_display(0));
    assert_eq!("00:05", to_display(3605));
    assert_eq!("01h00m00s", to_display_h_m_s(3600));
    assert_eq!("00m59s", to_display_h_m_s(59));
}
