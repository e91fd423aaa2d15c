//! Storage and associated methods of a client: a machine that is using the
//! service.
//!
//! The server keeps one entry per address with the number of requests it is
//! handling for it right now, and refuses an eleventh concurrent request
//! from the same address.  This is advisory flow control, not
//! authentication.

use vstd::prelude::*;

verus! {

/// One connected machine and its currently processed requests.
#[derive(Clone, Debug, PartialEq)]
pub struct Client {
    /// Address of the machine, as the connection reports it.
    pub adresse: String,
    /// The number of requests the client is actually making and that are
    /// processing.
    pub requetes_en_cours: i32,
}

/// The mathematical value of one client entry.
pub struct ClientV {
    pub adresse: Seq<char>,
    pub requetes_en_cours: i32,
}

impl View for Client {
    type V = ClientV;

    open spec fn view(&self) -> ClientV {
        ClientV { adresse: self.adresse@, requetes_en_cours: self.requetes_en_cours }
    }
}

impl DeepView for Client {
    type V = ClientV;

    open spec fn deep_view(&self) -> ClientV {
        self.view()
    }
}

/// Index of the first entry of the given address, `-1` if there is none.
pub open spec fn spec_find_client(clients: Seq<ClientV>, adresse: Seq<char>) -> int
    decreases clients.len(),
{
    if clients.len() == 0 {
        -1
    } else if clients[0].adresse == adresse {
        0
    } else {
        let rest = spec_find_client(clients.drop_first(), adresse);
        if rest == -1 {
            -1
        } else {
            rest + 1
        }
    }
}

/// What the recursive search means: the first matching entry.
pub proof fn lemma_find_client_props(clients: Seq<ClientV>, adresse: Seq<char>)
    ensures
        spec_find_client(clients, adresse) == -1 ==> forall|i: int|
            0 <= i < clients.len() ==> (#[trigger] clients[i]).adresse != adresse,
        spec_find_client(clients, adresse) != -1 ==> {
            let w = spec_find_client(clients, adresse);
            &&& 0 <= w < clients.len()
            &&& clients[w].adresse == adresse
            &&& forall|i: int| 0 <= i < w ==> (#[trigger] clients[i]).adresse != adresse
        },
    decreases clients.len(),
{
    if clients.len() > 0 && clients[0].adresse != adresse {
        lemma_find_client_props(clients.drop_first(), adresse);
        let rest = spec_find_client(clients.drop_first(), adresse);
        if rest == -1 {
            assert forall|i: int| 0 <= i < clients.len() implies (#[trigger] clients[i]).adresse
                != adresse by {
                if i > 0 {
                    assert(clients.drop_first()[i - 1] == clients[i]);
                }
            }
        } else {
            assert(clients.drop_first()[rest] == clients[rest + 1]);
            assert forall|i: int| 0 <= i < rest + 1 implies (#[trigger] clients[i]).adresse
                != adresse by {
                if i > 0 {
                    assert(clients.drop_first()[i - 1] == clients[i]);
                }
            }
        }
    }
}

/// How many requests the register currently carries for an address.
pub open spec fn spec_usage_of(clients: Seq<ClientV>, adresse: Seq<char>) -> int {
    let w = spec_find_client(clients, adresse);
    if w == -1 {
        0
    } else {
        clients[w].requetes_en_cours as int
    }
}

/// The register is well formed: one entry per address, each with between
/// one and ten requests in flight.
pub open spec fn spec_usage_wf(clients: Seq<ClientV>) -> bool {
    &&& forall|i: int|
        0 <= i < clients.len() ==> 1 <= (#[trigger] clients[i]).requetes_en_cours <= 10
    &&& forall|i: int, j: int|
        0 <= i < j < clients.len() ==> (#[trigger] clients[i]).adresse != (#[trigger] clients[j]).adresse
}

/// What one admission attempt does to the register, and whether it is let
/// through.
pub open spec fn spec_increase_usage(clients: Seq<ClientV>, adresse: Seq<char>) -> (
    Seq<ClientV>,
    bool,
) {
    let w = spec_find_client(clients, adresse);
    if w == -1 {
        (clients.push(ClientV { adresse, requetes_en_cours: 1 }), true)
    } else if clients[w].requetes_en_cours < 10 {
        (
            clients.update(
                w,
                ClientV {
                    adresse: clients[w].adresse,
                    requetes_en_cours: (clients[w].requetes_en_cours + 1) as i32,
                },
            ),
            true,
        )
    } else {
        (clients, false)
    }
}

/// What the end of one request does to the register.
pub open spec fn spec_decrease_usage(clients: Seq<ClientV>, adresse: Seq<char>) -> Seq<ClientV> {
    let w = spec_find_client(clients, adresse);
    if w == -1 {
        clients
    } else if clients[w].requetes_en_cours != 1 {
        (
            clients.update(
                w,
                ClientV {
                    adresse: clients[w].adresse,
                    requetes_en_cours: (clients[w].requetes_en_cours - 1) as i32,
                },
            )
        )
    } else {
        clients.remove(w)
    }
}

/// Allows to change the number of active requests of a [`Client`].
pub trait UsageControl {
    /// The register as a sequence of client entries.
    spec fn usage_view(&self) -> Seq<ClientV>;

    /// Increase by one the counter of active requests of a client, creating
    /// its entry if needed; refuses at the ceiling.
    fn increase_usage(&mut self, adresse: &String) -> (autorise: bool)
        requires
            spec_usage_wf(old(self).usage_view()),
        ensures
            (final(self).usage_view(), autorise) == spec_increase_usage(
                old(self).usage_view(),
                adresse@,
            ),
            spec_usage_wf(final(self).usage_view()),
    ;

    /// Decrease by one the counter of active requests of a client, deleting
    /// its entry when it reaches zero.
    fn decrease_usage(&mut self, adresse: &String)
        requires
            spec_usage_wf(old(self).usage_view()),
        ensures
            final(self).usage_view() == spec_decrease_usage(old(self).usage_view(), adresse@),
            spec_usage_wf(final(self).usage_view()),
    ;
}

impl UsageControl for Vec<Client> {
    open spec fn usage_view(&self) -> Seq<ClientV> {
        self.deep_view()
    }

    fn increase_usage(&mut self, adresse: &String) -> (autorise: bool) {
        let ghost s: Seq<ClientV> = self.deep_view();
        proof {
            lemma_find_client_props(s, adresse@);
        }
        let mut i: usize = 0;
        while i < self.len() && !(self[i].adresse == *adresse)
            invariant
                i <= s.len(),
                self.deep_view() == s,
                forall|m: int| 0 <= m < i ==> (#[trigger] s[m]).adresse != adresse@,
            decreases s.len() - i,
        {
            proof {
                assert(s[i as int] == self.deep_view()[i as int]);
            }
            i += 1;
        }
        proof {
            if i < s.len() {
                assert(s[i as int] == self.deep_view()[i as int]);
                assert(s[i as int].adresse == adresse@);
                assert(spec_find_client(s, adresse@) == i as int);
            } else {
                assert(spec_find_client(s, adresse@) == -1);
            }
        }
        if i == self.len() {
            self.push(Client { adresse: adresse.clone(), requetes_en_cours: 1 });
            proof {
                assert(self.deep_view() =~= s.push(
                    ClientV { adresse: adresse@, requetes_en_cours: 1 },
                ));
            }
            true
        } else {
            if self[i].requetes_en_cours < 10 {
                self[i].requetes_en_cours = self[i].requetes_en_cours + 1;
                proof {
                    assert(self.deep_view()[i as int] == self@[i as int]@);
                    assert forall|m: int|
                        0 <= m < s.len() && m != i as int implies self.deep_view()[m] == s[m] by {
                        assert(self.deep_view()[m] == self@[m]@);
                    }
                    assert(self.deep_view() =~= s.update(
                        i as int,
                        ClientV {
                            adresse: s[i as int].adresse,
                            requetes_en_cours: (s[i as int].requetes_en_cours + 1) as i32,
                        },
                    ));
                }
                true
            } else {
                false
            }
        }
    }

    fn decrease_usage(&mut self, adresse: &String) {
        let ghost s: Seq<ClientV> = self.deep_view();
        proof {
            lemma_find_client_props(s, adresse@);
        }
        let mut i: usize = 0;
        while i < self.len() && !(self[i].adresse == *adresse)
            invariant
                i <= s.len(),
                self.deep_view() == s,
                forall|m: int| 0 <= m < i ==> (#[trigger] s[m]).adresse != adresse@,
            decreases s.len() - i,
        {
            proof {
                assert(s[i as int] == self.deep_view()[i as int]);
            }
            i += 1;
        }
        proof {
            if i < s.len() {
                assert(s[i as int] == self.deep_view()[i as int]);
                assert(s[i as int].adresse == adresse@);
                assert(spec_find_client(s, adresse@) == i as int);
            } else {
                assert(spec_find_client(s, adresse@) == -1);
            }
        }
        if i == self.len() {
        } else if self[i].requetes_en_cours != 1 {
            self[i].requetes_en_cours = self[i].requetes_en_cours - 1;
            proof {
                assert(self.deep_view()[i as int] == self@[i as int]@);
                assert forall|m: int|
                    0 <= m < s.len() && m != i as int implies self.deep_view()[m] == s[m] by {
                    assert(self.deep_view()[m] == self@[m]@);
                }
                assert(self.deep_view() =~= s.update(
                    i as int,
                    ClientV {
                        adresse: s[i as int].adresse,
                        requetes_en_cours: (s[i as int].requetes_en_cours - 1) as i32,
                    },
                ));
            }
        } else {
            let ghost pre: Seq<Client> = self@;
            self.remove(i);
            proof {
                assert forall|m: int|
                    0 <= m < self.deep_view().len() implies self.deep_view()[m] == s.remove(
                    i as int,
                )[m] by {
                    s.remove_ensures(i as int);
                    assert(self.deep_view()[m] == self@[m]@);
                    if m < i as int {
                        assert(self@[m] == pre[m]);
                    } else {
                        assert(self@[m] == pre[m + 1]);
                    }
                }
                assert(self.deep_view() =~= s.remove(i as int));
                s.remove_ensures(i as int);
                assert forall|a: int, b: int|
                    0 <= a < b < s.remove(i as int).len() implies (#[trigger] s.remove(
                    i as int,
                )[a]).adresse != (#[trigger] s.remove(i as int)[b]).adresse by {
                    let sa = if a < i as int {
                        a
                    } else {
                        a + 1
                    };
                    let sb = if b < i as int {
                        b
                    } else {
                        b + 1
                    };
                    assert(s.remove(i as int)[a] == s[sa]);
                    assert(s.remove(i as int)[b] == s[sb]);
                }
            }
        }
    }
}

/// Repeated admission attempts from one address.
pub open spec fn spec_iter_increase(clients: Seq<ClientV>, adresse: Seq<char>, n: nat) -> Seq<
    ClientV,
>
    decreases n,
{
    if n == 0 {
        clients
    } else {
        spec_increase_usage(spec_iter_increase(clients, adresse, (n - 1) as nat), adresse).0
    }
}

proof fn lemma_increase_usage_wf(clients: Seq<ClientV>, adresse: Seq<char>)
    requires
        spec_usage_wf(clients),
    ensures
        spec_usage_wf(spec_increase_usage(clients, adresse).0),
        spec_usage_of(spec_increase_usage(clients, adresse).0, adresse) == if spec_usage_of(
            clients,
            adresse,
        ) < 10 {
            spec_usage_of(clients, adresse) + 1
        } else {
            10
        },
        spec_increase_usage(clients, adresse).1 == (spec_usage_of(clients, adresse) < 10),
{
    lemma_find_client_props(clients, adresse);
    let w = spec_find_client(clients, adresse);
    let out = spec_increase_usage(clients, adresse).0;
    if w == -1 {
        assert(out[clients.len() as int].adresse == adresse);
        lemma_find_client_props(out, adresse);
        let w2 = spec_find_client(out, adresse);
        assert(w2 != -1);
        assert(w2 == clients.len() as int);
        assert forall|a: int, b: int| 0 <= a < b < out.len() implies (#[trigger] out[a]).adresse
            != (#[trigger] out[b]).adresse by {
            if b < clients.len() as int {
            } else {
                assert(out[b].adresse == adresse);
                assert(clients[a].adresse != adresse);
            }
        }
    } else if clients[w].requetes_en_cours < 10 {
        lemma_find_client_props(out, adresse);
        let w2 = spec_find_client(out, adresse);
        assert(out[w].adresse == adresse);
        assert(w2 != -1);
        assert(w2 <= w);
        assert(clients[w2].adresse == out[w2].adresse);
        assert(w2 == w);
    }
}

proof fn lemma_decrease_usage_wf(clients: Seq<ClientV>, adresse: Seq<char>)
    requires
        spec_usage_wf(clients),
    ensures
        spec_usage_wf(spec_decrease_usage(clients, adresse)),
        spec_usage_of(spec_decrease_usage(clients, adresse), adresse) == if spec_usage_of(
            clients,
            adresse,
        ) > 1 {
            spec_usage_of(clients, adresse) - 1
        } else {
            0
        },
{
    lemma_find_client_props(clients, adresse);
    let w = spec_find_client(clients, adresse);
    let out = spec_decrease_usage(clients, adresse);
    if w == -1 {
    } else if clients[w].requetes_en_cours != 1 {
        lemma_find_client_props(out, adresse);
        let w2 = spec_find_client(out, adresse);
        assert(out[w].adresse == adresse);
        assert(w2 != -1);
        assert(w2 <= w);
        assert(clients[w2].adresse == out[w2].adresse);
        assert(w2 == w);
    } else {
        clients.remove_ensures(w);
        assert forall|a: int, b: int| 0 <= a < b < out.len() implies (#[trigger] out[a]).adresse
            != (#[trigger] out[b]).adresse by {
            let sa = if a < w {
                a
            } else {
                a + 1
            };
            let sb = if b < w {
                b
            } else {
                b + 1
            };
            assert(out[a] == clients[sa]);
            assert(out[b] == clients[sb]);
        }
        lemma_find_client_props(out, adresse);
        let w2 = spec_find_client(out, adresse);
        if w2 != -1 {
            let sw = if w2 < w {
                w2
            } else {
                w2 + 1
            };
            assert(out[w2] == clients[sw]);
            assert(clients[sw].adresse == adresse);
            assert(sw != w);
            assert(false);
        }
    }
}

/// Usage ceiling: starting with no entry for an address, each of the first
/// ten admission attempts succeeds and brings the entry to that many
/// requests in flight; the eleventh attempt is refused and changes nothing.
pub proof fn lemma_usage_ceiling(clients: Seq<ClientV>, adresse: Seq<char>, n: nat)
    requires
        spec_usage_wf(clients),
        spec_find_client(clients, adresse) == -1,
        n <= 10,
    ensures
        spec_usage_wf(spec_iter_increase(clients, adresse, n)),
        spec_usage_of(spec_iter_increase(clients, adresse, n), adresse) == n,
        n < 10 ==> spec_increase_usage(spec_iter_increase(clients, adresse, n), adresse).1
            == true,
        n == 10 ==> spec_increase_usage(spec_iter_increase(clients, adresse, n), adresse).1
            == false,
    decreases n,
{
    lemma_find_client_props(clients, adresse);
    if n == 0 {
        lemma_increase_usage_wf(clients, adresse);
    } else {
        lemma_usage_ceiling(clients, adresse, (n - 1) as nat);
        lemma_increase_usage_wf(spec_iter_increase(clients, adresse, (n - 1) as nat), adresse);
        lemma_increase_usage_wf(spec_iter_increase(clients, adresse, n), adresse);
    }
}

/// After any end of request for an address, a following admission attempt
/// from it succeeds again.
pub proof fn lemma_usage_recovers_after_decrease(clients: Seq<ClientV>, adresse: Seq<char>)
    requires
        spec_usage_wf(clients),
    ensures
        spec_increase_usage(spec_decrease_usage(clients, adresse), adresse).1 == true,
{
    lemma_find_client_props(clients, adresse);
    let w = spec_find_client(clients, adresse);
    if w != -1 {
        assert(1 <= clients[w].requetes_en_cours <= 10);
    }
    assert(spec_usage_of(clients, adresse) <= 10);
    lemma_decrease_usage_wf(clients, adresse);
    lemma_increase_usage_wf(spec_decrease_usage(clients, adresse), adresse);
}

} // verus!
