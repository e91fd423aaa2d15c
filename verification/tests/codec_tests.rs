//! The JSON wire format: flights, flight lists and the flight-log answer.

use cepo::flight::Flight;
use cepo::flightlog::FlightLog;
use cepo::nb_2digits_string;
use cepo::temps::{Date, Time};
use cepo::vol_json::VolJson;

#[test]
fn vec_vol_vers_json_test() {
    let vols = vec![Flight::default()];
    let vols_str = vols.vers_json();

    assert_eq!(
        vols_str,
        String::from(
            "[\n{\"numero_ogn\":1,\"code_decollage\":\"T\",\"machine_decollage\":\"F-REMA\",\"decolleur\":\"YDL\",\"aeronef\":\"F-CERJ\",\"code_vol\":\"S\",\"pilote1\":\"Walt Disney\",\"pilote2\":\"\",\"decollage\":\"13:00\",\"atterissage\":\"14:00\"}\n]"
        )
    )
}

#[test]
fn test_flight_from_json() {
    let flight = Flight {
        ogn_nb: 1,
        takeoff_code: String::from(""),
        takeoff_machine: String::from(""),
        takeoff_machine_pilot: String::from(""),
        glider: String::from("F-CEAF"),
        flight_code: String::from(""),
        pilot1: String::from(""),
        pilot2: String::from(""),
        takeoff: Time { hour: 14, minute: 14, second: 0 },
        landing: Time { hour: 14, minute: 19, second: 0 },
    };

    let flight_json = flight.vers_json();
    let flight_test = Flight::depuis_json(&flight_json).unwrap_or_default();
    assert_eq!(flight, flight_test)
}

#[test]
fn vec_vol_vers_json_empty_list() {
    let vols: Vec<Flight> = Vec::new();
    assert_eq!(vols.vers_json(), String::from("[\n]"));
}

#[test]
fn flight_from_json_with_spaces_and_defaults() {
    // an incomplete payload decodes with explicit defaults, whitespace
    // between tokens tolerated
    let vol = Flight::depuis_json(
        " { \"numero_ogn\": 12, \"aeronef\": \"F-CHFL\", \"decollage\": \"9:05\" } ",
    )
    .unwrap();
    assert_eq!(vol.ogn_nb, 12);
    assert_eq!(vol.glider, "F-CHFL");
    assert_eq!(vol.takeoff, Time { hour: 9, minute: 5, second: 0 });
    assert_eq!(vol.landing, Time { hour: 0, minute: 0, second: 0 });
    assert_eq!(vol.pilot1, "");
    assert_eq!(vol.takeoff_code, "");
}

#[test]
fn flight_from_json_refuses_a_broken_text() {
    assert!(Flight::depuis_json("pas du json").is_none());
    assert!(Flight::depuis_json("{\"numero_ogn\":1").is_none());
    assert!(Flight::depuis_json("").is_none());
}

#[test]
fn flight_from_json_unreadable_time_stays_sentinel() {
    let vol = Flight::depuis_json("{\"decollage\":\"25:99\"}").unwrap();
    assert_eq!(vol.takeoff, Time { hour: 0, minute: 0, second: 0 });
}

#[test]
fn vec_vol_depuis_json_replaces_the_list() {
    let vols_orig = vec![Flight::default(), Flight { ogn_nb: 2, ..Flight::default() }];
    let json = vols_orig.vers_json();
    let mut vols: Vec<Flight> = Vec::new();
    assert!(vols.depuis_json(&json));
    assert_eq!(vols, vols_orig);
    // a broken text leaves the list alone and says so
    assert!(!vols.depuis_json("[{"));
    assert_eq!(vols, vols_orig);
}

#[test]
fn flightlog_vers_json_shape() {
    let mut log = FlightLog::new();
    log.date = Date { year: 2023, month: 4, day: 25 };
    assert_eq!(
        log.vers_json(),
        String::from("{ \"date\": \"2023/04/25\",\n\"vols\" : [\n]}")
    );
}

#[test]
fn nb_2digits_string_pads_small_numbers() {
    assert_eq!(nb_2digits_string(2), String::from("02"));
    assert_eq!(nb_2digits_string(20), String::from("20"));
    assert_eq!(nb_2digits_string(0), String::from("00"));
}
