//! Edit requests: parsing, applying, and the journal's eviction.

use cepo::flightlog::FlightLog;
use cepo::mise_a_jour::{enlever_majs_obsoletes_a, MiseAJour, MiseAJourJson};
use cepo::temps::{Date, Time};
use cepo::flight::Flight;

fn maj(numero: i32, champ: &str, valeur: &str, date: Date) -> MiseAJour {
    MiseAJour {
        numero_ogn: numero,
        champ_mis_a_jour: String::from(champ),
        nouvelle_valeur: String::from(valeur),
        date,
        heure: Time { hour: 12, minute: 0, second: 0 },
    }
}

#[test]
fn mise_a_jour_parse_test() {
    let mut mise_a_jour_parse = MiseAJour::new();
    let _ = mise_a_jour_parse.parse(
        " \
            { \
                \"numero_ogn\": 1, \
                \"champ_mis_a_jour\": \"code_vol\", \
                \"nouvelle_valeur\": \"M\" \
            }",
    );

    assert_eq!(mise_a_jour_parse.numero_ogn, 1);
    assert_eq!(mise_a_jour_parse.champ_mis_a_jour, String::from("code_vol"));
    assert_eq!(mise_a_jour_parse.nouvelle_valeur, String::from("M"));
}

#[test]
fn planche_mise_a_jour_parse_test() {
    let mut mise_a_jour_parse = MiseAJour::new();
    let _ = mise_a_jour_parse.parse(
        "{ \
            \"numero_ogn\": 1, \
            \"champ_mis_a_jour\": \"code_vol\", \
            \"nouvelle_valeur\": \"M\", \
            \"date\":  \"2023/04/25\" \
        }",
    );

    assert_eq!(mise_a_jour_parse.numero_ogn, 1);
    assert_eq!(mise_a_jour_parse.champ_mis_a_jour, String::from("code_vol"));
    assert_eq!(mise_a_jour_parse.nouvelle_valeur, String::from("M"));
    assert_eq!(mise_a_jour_parse.date, Date { year: 2023, month: 4, day: 25 });
}

#[test]
fn mettre_a_jour_test() {
    let mut log = FlightLog::new();
    log.flights.push(Flight::default());

    let mise_a_jour = maj(1, "machine_decollage", "LUCIFER", log.date);
    log.update(&mise_a_jour);

    let vol_verif = Flight {
        ogn_nb: 1,
        takeoff_code: String::from("T"),
        takeoff_machine: String::from("LUCIFER"),
        takeoff_machine_pilot: String::from("YDL"),
        glider: String::from("F-CERJ"),
        flight_code: String::from("S"),
        pilot1: String::from("Walt Disney"),
        pilot2: String::default(),
        takeoff: Time { hour: 13, minute: 0, second: 0 },
        landing: Time { hour: 14, minute: 0, second: 0 },
    };
    assert_eq!(log.flights[0], vol_verif)
}

#[test]
fn planche_mettre_a_jour_test() {
    let date = Date { year: 2023, month: 4, day: 25 };
    let mut vols = Vec::new();
    vols.push(Flight {
        ogn_nb: 1,
        takeoff_code: String::from("T"),
        takeoff_machine: String::from("FREMA"),
        takeoff_machine_pilot: String::from("YDL"),
        glider: String::from("F-CERJ"),
        flight_code: String::from("S"),
        pilot1: String::from("Walt Disney"),
        pilot2: String::default(),
        takeoff: Time { hour: 13, minute: 0, second: 0 },
        landing: Time { hour: 14, minute: 0, second: 0 },
    });
    let mut planche = FlightLog::new();
    planche.date = date;
    planche.flights = vols;

    let mise_a_jour = maj(1, "machine_decollage", "LUCIFER", date);
    planche.update(&mise_a_jour);

    let vol_verif = Flight {
        ogn_nb: 1,
        takeoff_code: String::from("T"),
        takeoff_machine: String::from("LUCIFER"),
        takeoff_machine_pilot: String::from("YDL"),
        glider: String::from("F-CERJ"),
        flight_code: String::from("S"),
        pilot1: String::from("Walt Disney"),
        pilot2: String::default(),
        takeoff: Time { hour: 13, minute: 0, second: 0 },
        landing: Time { hour: 14, minute: 0, second: 0 },
    };
    assert_eq!(planche.flights.len(), 1);
    assert_eq!(planche.flights[0], vol_verif);
    assert_eq!(planche.date, date);
}

#[test]
fn update_for_another_day_is_ignored() {
    let mut log = FlightLog::new();
    log.date = Date { year: 2023, month: 4, day: 25 };
    log.flights.push(Flight::default());
    let before = log.clone();
    let mise_a_jour = maj(1, "pilote1", "Roy Disney", Date { year: 2023, month: 4, day: 26 });
    log.update(&mise_a_jour);
    assert_eq!(log, before);
}

#[test]
fn update_with_unknown_field_is_ignored() {
    let mut log = FlightLog::new();
    log.flights.push(Flight::default());
    let before = log.clone();
    let mise_a_jour = maj(1, "couleur_preferee", "rouge", log.date);
    log.update(&mise_a_jour);
    assert_eq!(log, before);
}

#[test]
fn update_with_unreadable_time_is_ignored() {
    let mut log = FlightLog::new();
    log.flights.push(Flight::default());
    let before = log.clone();
    let mise_a_jour = maj(1, "decollage", "bientot", log.date);
    log.update(&mise_a_jour);
    assert_eq!(log, before);
}

#[test]
fn update_sets_a_time_field() {
    let mut log = FlightLog::new();
    log.flights.push(Flight::default());
    let mise_a_jour = maj(1, "decollage", "09:41", log.date);
    log.update(&mise_a_jour);
    assert_eq!(log.flights[0].takeoff, Time { hour: 9, minute: 41, second: 0 });
}

#[test]
fn update_number_zero_addresses_the_crew_slots() {
    let mut log = FlightLog::new();
    log.update(&maj(0, "pilote_tr", "Walt Disney", log.date));
    log.update(&maj(0, "chef_piste", "Roy Disney", log.date));
    assert_eq!(log.pilote_tr, "Walt Disney");
    assert_eq!(log.chef_piste, "Roy Disney");
    assert!(log.flights.is_empty());
}

#[test]
fn mise_a_jour_vers_json_exact() {
    let m = MiseAJour {
        numero_ogn: 13,
        champ_mis_a_jour: String::from("code_vol"),
        nouvelle_valeur: String::from("M"),
        date: Date { year: 2023, month: 4, day: 25 },
        heure: Time { hour: 13, minute: 5, second: 42 },
    };
    assert_eq!(
        m.vers_json(),
        String::from(
            "{\"numero_ogn\":13,\"date\":\"2023/04/25\",\"champ_mis_a_jour\":\"code_vol\",\"nouvelle_valeur\":\"M\",\"heure\":\"13:05\"}"
        )
    );
}

#[test]
fn majs_vers_json_joins_and_handles_empty() {
    let vide: Vec<MiseAJour> = Vec::new();
    assert_eq!(vide.vers_json(), String::from("[]"));
    let deux = vec![
        maj(1, "code_vol", "M", Date { year: 2023, month: 4, day: 25 }),
        maj(2, "pilote1", "Walt", Date { year: 2023, month: 4, day: 25 }),
    ];
    let json = deux.vers_json();
    assert!(json.starts_with("[{\"numero_ogn\":1,"));
    assert!(json.contains("},{\"numero_ogn\":2,"));
    assert!(json.ends_with("}]"));
}

#[test]
fn journal_eviction_boundaries() {
    let date = Date { year: 2023, month: 4, day: 25 };
    // inserted at 12:00:00, retention of five minutes
    let insere = maj(1, "code_vol", "M", date);

    // still present one second before the window closes
    let mut majs = vec![insere.clone()];
    enlever_majs_obsoletes_a(&mut majs, Time { hour: 12, minute: 4, second: 59 }, 300);
    assert_eq!(majs.len(), 1);

    // exactly at the window: an age of exactly the retention is kept
    let mut majs = vec![insere.clone()];
    enlever_majs_obsoletes_a(&mut majs, Time { hour: 12, minute: 5, second: 0 }, 300);
    assert_eq!(majs.len(), 1);

    // gone one second past the window
    let mut majs = vec![insere.clone()];
    enlever_majs_obsoletes_a(&mut majs, Time { hour: 12, minute: 5, second: 1 }, 300);
    assert_eq!(majs.len(), 0);
}

#[test]
fn journal_eviction_keeps_order_of_survivors() {
    let date = Date { year: 2023, month: 4, day: 25 };
    let vieux = MiseAJour { heure: Time { hour: 11, minute: 0, second: 0 }, ..maj(1, "a", "b", date) };
    let recent1 = MiseAJour { heure: Time { hour: 11, minute: 58, second: 0 }, ..maj(2, "a", "b", date) };
    let recent2 = MiseAJour { heure: Time { hour: 11, minute: 59, second: 0 }, ..maj(3, "a", "b", date) };
    let mut majs = vec![vieux, recent1.clone(), recent2.clone()];
    enlever_majs_obsoletes_a(&mut majs, Time { hour: 12, minute: 0, second: 0 }, 300);
    assert_eq!(majs, vec![recent1, recent2]);
}

#[test]
fn parse_with_bad_date_falls_back_to_placeholder() {
    let mut m = MiseAJour::new();
    let _ = m.parse("{\"numero_ogn\": 2, \"date\": \"2023/02/30\"}");
    assert_eq!(m.numero_ogn, 2);
    assert_eq!(m.date, Date { year: 1970, month: 1, day: 1 });
}

#[test]
fn parse_of_a_non_object_leaves_the_update_alone() {
    let mut m = MiseAJour::new();
    let avant = m.clone();
    assert!(m.parse("[1,2,3]").is_ok());
    assert_eq!(m, avant);
}
