//! Daily flight-log engine for a gliding club.
//!
//! The library models one day of club activity: the flights observed by the
//! OGN network feed, the locally entered corrections, the crew assignments,
//! and the short-lived journal of recent edits.  Every algorithm that decides
//! something — merging a feed poll into the local flight list, deciding which
//! files actually need to be rewritten, evicting old journal entries,
//! admitting or refusing a client request — lives here with a proved
//! contract.  The surrounding server (HTTP, file system, the poll loop)
//! hands the library plain values and carries its answers out.

use vstd::prelude::*;

pub mod client;
pub mod codec;
pub mod flight;
pub mod flightlog;
pub mod mise_a_jour;
pub mod storage;
pub mod temps;
pub mod vol_json;

verus! {

/// Two-character, zero-padded rendering of a small number, used for month,
/// day and file-index names on disk.
pub open spec fn spec_nb_2digits(nombre: int) -> Seq<char> {
    if nombre > 9 {
        crate::temps::spec_dec_i32(nombre)
    } else {
        seq!['0'] + crate::temps::spec_dec_i32(nombre)
    }
}

/// Returns a two-character-long string of the number (`2` becomes `02`,
/// `20` stays `20`).
pub fn nb_2digits_string(nombre: i32) -> (r: String)
    ensures
        r@ == spec_nb_2digits(nombre as int),
{
    if nombre > 9 {
        crate::temps::dec_i32_string(nombre)
    } else {
        let mut r = String::new();
        r.append("0");
        let digits = crate::temps::dec_i32_string(nombre);
        r.append(digits.as_str());
        proof {
            reveal_strlit("0");
        }
        assert(r@ =~= seq!['0'] + digits@);
        r
    }
}

} // verus!
