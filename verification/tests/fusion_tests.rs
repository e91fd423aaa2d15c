//! The reconciliation of feed polls into the day's flight list.

use cepo::flight::{Flight, Update};
use cepo::temps::Time;

fn vol(ogn_nb: i32, glider: &str, takeoff: (u8, u8), landing: (u8, u8)) -> Flight {
    Flight {
        ogn_nb,
        takeoff_code: String::new(),
        takeoff_machine: String::new(),
        takeoff_machine_pilot: String::new(),
        glider: String::from(glider),
        flight_code: String::new(),
        pilot1: String::new(),
        pilot2: String::new(),
        takeoff: Time { hour: takeoff.0, minute: takeoff.1, second: 0 },
        landing: Time { hour: landing.0, minute: landing.1, second: 0 },
    }
}

#[test]
fn merge_fills_sentinel_times_and_keeps_local_fields() {
    let mut existing = vec![Flight {
        ogn_nb: 5,
        takeoff_code: String::from("T"),
        takeoff_machine: String::from("LUCIFER"),
        takeoff_machine_pilot: String::from("YDL"),
        glider: String::from("F-ABCD"),
        flight_code: String::from("S"),
        pilot1: String::from("Walt Disney"),
        pilot2: String::new(),
        takeoff: Time { hour: 0, minute: 0, second: 0 },
        landing: Time { hour: 0, minute: 0, second: 0 },
    }];
    let incoming = vec![vol(5, "F-ABCD", (10, 15), (11, 2))];
    existing.update(incoming);
    assert_eq!(existing.len(), 1);
    assert_eq!(existing[0].ogn_nb, 5);
    assert_eq!(existing[0].glider, "F-ABCD");
    assert_eq!(existing[0].takeoff, Time { hour: 10, minute: 15, second: 0 });
    assert_eq!(existing[0].landing, Time { hour: 11, minute: 2, second: 0 });
    assert_eq!(existing[0].pilot1, "Walt Disney");
    assert_eq!(existing[0].flight_code, "S");
    assert_eq!(existing[0].takeoff_machine, "LUCIFER");
    assert_eq!(existing[0].takeoff_code, "T");
}

#[test]
fn merge_keeps_an_already_entered_time() {
    let mut existing = vec![vol(7, "F-CERJ", (9, 30), (0, 0))];
    let incoming = vec![vol(7, "F-CERJ", (9, 45), (10, 20))];
    existing.update(incoming);
    assert_eq!(existing.len(), 1);
    // the takeoff was already known: the feed does not overwrite it
    assert_eq!(existing[0].takeoff, Time { hour: 9, minute: 30, second: 0 });
    // the landing was still unknown: it is filled
    assert_eq!(existing[0].landing, Time { hour: 10, minute: 20, second: 0 });
}

#[test]
fn merge_appends_an_unknown_flight_once() {
    let mut existing = vec![vol(1, "F-CERJ", (13, 0), (14, 0))];
    let incoming = vec![vol(2, "F-ABCD", (10, 0), (11, 0))];
    existing.update(incoming);
    assert_eq!(existing.len(), 2);
    assert_eq!(existing[1].ogn_nb, 2);
    assert_eq!(existing[1].glider, "F-ABCD");
}

#[test]
fn merge_twice_is_merge_once_for_settled_numbers() {
    let existing = vec![vol(1, "F-CERJ", (13, 0), (0, 0)), vol(3, "F-ABCD", (0, 0), (0, 0))];
    let incoming = vec![
        vol(1, "F-CERJ", (13, 5), (14, 0)),
        vol(9, "F-CHFL", (10, 0), (10, 30)),
    ];
    let mut once = existing.clone();
    once.update(incoming.clone());
    let mut twice = once.clone();
    twice.update(incoming);
    assert_eq!(once, twice);
}

#[test]
fn merge_corrects_a_provisional_number_by_glider() {
    // documented legacy behavior: a provisional (negative) incoming number
    // matching no existing number selects the flight of the same glider and
    // overwrites its number, takeoff code and both times wholesale
    let mut existing = vec![Flight {
        flight_code: String::from("M"),
        ..vol(4, "F-CERJ", (9, 0), (0, 0))
    }];
    let mut corrected = vol(-2, "F-CERJ", (9, 5), (9, 50));
    corrected.takeoff_code = String::from("R");
    existing.update(vec![corrected]);
    assert_eq!(existing.len(), 1);
    assert_eq!(existing[0].ogn_nb, -2);
    assert_eq!(existing[0].takeoff_code, "R");
    assert_eq!(existing[0].takeoff, Time { hour: 9, minute: 5, second: 0 });
    assert_eq!(existing[0].landing, Time { hour: 9, minute: 50, second: 0 });
    // the local classification survives the correction
    assert_eq!(existing[0].flight_code, "M");
}

#[test]
fn number_match_wins_over_the_glider_rule() {
    // the incoming provisional number is already carried by one flight, so
    // the number match takes priority: only sentinels are filled, and the
    // other flight of the same glider is not selected as a candidate
    let mut existing = vec![
        vol(-5, "F-ABCD", (0, 0), (0, 0)),
        vol(7, "F-ABCD", (9, 0), (9, 30)),
    ];
    existing.update(vec![vol(-5, "F-ABCD", (10, 15), (11, 2))]);
    assert_eq!(existing.len(), 2);
    assert_eq!(existing[0].ogn_nb, -5);
    assert_eq!(existing[0].takeoff, Time { hour: 10, minute: 15, second: 0 });
    assert_eq!(existing[1].ogn_nb, 7);
    assert_eq!(existing[1].takeoff, Time { hour: 9, minute: 0, second: 0 });
    assert_eq!(existing[1].landing, Time { hour: 9, minute: 30, second: 0 });
}

#[test]
fn merge_keeps_positive_numbers_unique() {
    // a provisional correction in the same poll as a number match never
    // copies a positive number onto another flight
    let mut existing = vec![vol(1, "F-ABCD", (8, 0), (8, 30)), vol(2, "F-CERJ", (0, 0), (0, 0))];
    existing.update(vec![
        vol(-3, "F-ABCD", (9, 0), (9, 30)),
        vol(2, "F-ABCD", (10, 0), (10, 30)),
    ]);
    assert_eq!(existing.len(), 2);
    // the provisional flight corrected the first flight of its glider
    assert_eq!(existing[0].ogn_nb, -3);
    // the second incoming flight matched by number and only filled sentinels
    assert_eq!(existing[1].ogn_nb, 2);
    assert_eq!(existing[1].takeoff, Time { hour: 10, minute: 0, second: 0 });
}

#[test]
fn sentinel_fill_holds_across_a_whole_settled_poll() {
    let mut existing = vec![
        vol(5, "F-ABCD", (0, 0), (0, 0)),
        vol(6, "F-CERJ", (11, 0), (0, 0)),
    ];
    existing.update(vec![
        vol(9, "F-CHFL", (12, 0), (12, 30)),
        vol(5, "F-ABCD", (10, 15), (11, 2)),
        vol(6, "F-CERJ", (11, 5), (11, 45)),
    ]);
    assert_eq!(existing.len(), 3);
    assert_eq!(existing[0].takeoff, Time { hour: 10, minute: 15, second: 0 });
    assert_eq!(existing[0].landing, Time { hour: 11, minute: 2, second: 0 });
    // the already entered takeoff survives, the sentinel landing is filled
    assert_eq!(existing[1].takeoff, Time { hour: 11, minute: 0, second: 0 });
    assert_eq!(existing[1].landing, Time { hour: 11, minute: 45, second: 0 });
    assert_eq!(existing[2].ogn_nb, 9);
}

#[test]
fn merge_of_empty_feed_changes_nothing() {
    let mut existing = vec![vol(1, "F-CERJ", (13, 0), (14, 0))];
    let before = existing.clone();
    existing.update(Vec::new());
    assert_eq!(existing, before);
}
