//! The day-partitioned store: write-if-changed plans and directory loads.

use cepo::flight::Flight;
use cepo::flightlog::FlightLog;
use cepo::storage::{
    affectations_vers_json, charger_vols, chemin_jour, lire_affectations, nom_fichier_vol,
    plan_affectations, plan_enregistrement, FichierJour,
};
use cepo::temps::{Date, Time};

fn appliquer(fichiers: &mut Vec<String>, plan: &Vec<Option<String>>) {
    for (i, ecriture) in plan.iter().enumerate() {
        if let Some(contenu) = ecriture {
            fichiers[i] = contenu.clone();
        }
    }
}

#[test]
fn save_writes_once_then_nothing() {
    let vols = vec![Flight::default(), Flight { ogn_nb: 2, ..Flight::default() }];
    let mut fichiers = vec![String::new(), String::new()];

    let premier = plan_enregistrement(&vols, &fichiers);
    assert!(premier.iter().all(|e| e.is_some()));
    appliquer(&mut fichiers, &premier);

    // unchanged content: the second save performs zero writes
    let second = plan_enregistrement(&vols, &fichiers);
    assert!(second.iter().all(|e| e.is_none()));
}

#[test]
fn save_rewrites_only_what_changed() {
    let mut vols = vec![Flight::default(), Flight { ogn_nb: 2, ..Flight::default() }];
    let mut fichiers = vec![String::new(), String::new()];
    let initial = plan_enregistrement(&vols, &fichiers);
    appliquer(&mut fichiers, &initial);

    vols[1].pilot1 = String::from("Roy Disney");
    let plan = plan_enregistrement(&vols, &fichiers);
    assert!(plan[0].is_none());
    assert!(plan[1].is_some());
}

#[test]
fn affectations_written_only_on_change() {
    let mut log = FlightLog::new();
    log.pilote_tr = String::from("Walt Disney");
    let fichier = String::new();
    let premier = plan_affectations(&log, &fichier).expect("a first save writes");
    assert_eq!(
        premier,
        String::from(
            "{\"pilote_tr\":\"Walt Disney\",\"treuil\":\"\",\"pilote_rq\":\"\",\"remorqueur\":\"\",\"chef_piste\":\"\"}"
        )
    );
    assert!(plan_affectations(&log, &premier).is_none());
    assert_eq!(affectations_vers_json(&log), premier);
}

#[test]
fn lire_affectations_round_trip_and_defaults() {
    let mut log = FlightLog::new();
    log.pilote_tr = String::from("Walt Disney");
    log.treuil = String::from("yellow");
    log.chef_piste = String::from("Roy Disney");
    let texte = affectations_vers_json(&log);

    let mut relu = FlightLog::new();
    lire_affectations(&mut relu, &texte);
    assert_eq!(relu.pilote_tr, "Walt Disney");
    assert_eq!(relu.treuil, "yellow");
    assert_eq!(relu.pilote_rq, "");
    assert_eq!(relu.chef_piste, "Roy Disney");

    // an unreadable file leaves every slot empty
    let mut vide = FlightLog::new();
    vide.pilote_tr = String::from("quelqu'un");
    lire_affectations(&mut vide, "pas du json");
    assert_eq!(vide.pilote_tr, "");
}

#[test]
fn charger_vols_skips_reserved_and_counts_broken_files() {
    let bon = Flight::default();
    let fichiers = vec![
        FichierJour { nom: String::from("00.json"), contenu: bon.vers_json() },
        FichierJour {
            nom: String::from("affectations.json"),
            contenu: String::from("{\"pilote_tr\":\"Walt\"}"),
        },
        FichierJour { nom: String::from("01.json"), contenu: String::from("corrompu") },
        FichierJour {
            nom: String::from("02.json"),
            contenu: Flight { ogn_nb: 2, ..Flight::default() }.vers_json(),
        },
    ];
    let (vols, ignores) = charger_vols(&fichiers);
    assert_eq!(vols.len(), 2);
    assert_eq!(vols[0], bon);
    assert_eq!(vols[1].ogn_nb, 2);
    assert_eq!(ignores, 1);
}

#[test]
fn day_paths_and_file_names_are_zero_padded() {
    assert_eq!(
        chemin_jour(&Date { year: 2023, month: 4, day: 25 }),
        String::from("2023/04/25")
    );
    assert_eq!(nom_fichier_vol(0), String::from("00.json"));
    assert_eq!(nom_fichier_vol(7), String::from("07.json"));
    assert_eq!(nom_fichier_vol(23), String::from("23.json"));
}

#[test]
fn refresh_from_network_merges_or_keeps() {
    let mut log = FlightLog::new();
    log.flights.push(Flight {
        takeoff: Time { hour: 0, minute: 0, second: 0 },
        landing: Time { hour: 0, minute: 0, second: 0 },
        ..Flight::default()
    });

    // a failed fetch leaves the last known good log
    let avant = log.clone();
    assert!(!log.refresh_from_network(None));
    assert_eq!(log, avant);

    // a successful fetch is merged in
    let poll = vec![Flight {
        takeoff: Time { hour: 10, minute: 15, second: 0 },
        landing: Time { hour: 11, minute: 2, second: 0 },
        ..Flight::default()
    }];
    assert!(log.refresh_from_network(Some(poll)));
    assert_eq!(log.flights.len(), 1);
    assert_eq!(log.flights[0].takeoff, Time { hour: 10, minute: 15, second: 0 });
}
