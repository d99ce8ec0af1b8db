//! The client registry and broadcast dispatcher: the single authority that
//! owns the live client list. It admits or rejects registrations (duplicate
//! or empty names are rejected and the connection is to be closed), hands a
//! newly admitted client its greeting with the roster of clients admitted
//! before it, plans the fan-out of each message to every live client in
//! join order, and prunes lazily: a failed write marks the record with the
//! empty-name sentinel, and the sweep at the end of the same pass drops
//! every marked record.
//!
//! The registry never touches a connection itself. A client's connection is
//! carried as a plain numeric handle chosen by the caller; the caller
//! performs the writes a plan asks for and reports back, per record, whether
//! the write failed.

use crate::message::{format_spec, greeting_spec, roster_spec};
use crate::message::format_message;
use vstd::prelude::*;
use vstd::string::StrSliceExecFns;
use vstd::string::StringExecFns;

verus! {

/// One live client: its name and the caller's handle for its connection.
pub struct ClientRecord {
    /// The client's name; emptied to mark the record for removal.
    pub username: String,
    /// The caller's handle for the write half of the connection.
    pub conn: u64,
}

impl Clone for ClientRecord {
    fn clone(&self) -> (r: Self)
        ensures
            r == *self,
    {
        ClientRecord { username: self.username.clone(), conn: self.conn }
    }
}

/// The names in `s` are pairwise distinct and none is the empty sentinel.
pub open spec fn names_ok(s: Seq<(Seq<char>, u64)>) -> bool {
    &&& forall|i: int| 0 <= i < s.len() ==> (#[trigger] s[i]).0.len() > 0
    &&& forall|i: int, j: int|
        0 <= i < j < s.len() ==> (#[trigger] s[i]).0 != (#[trigger] s[j]).0
}

/// The records of `s` whose flag in `kept` is set, in order.
pub open spec fn filter_kept(s: Seq<(Seq<char>, u64)>, kept: Seq<bool>) -> Seq<(Seq<char>, u64)>
    decreases s.len(),
{
    if s.len() == 0 {
        Seq::empty()
    } else if kept[s.len() - 1] {
        filter_kept(s.drop_last(), kept.drop_last()).push(s.last())
    } else {
        filter_kept(s.drop_last(), kept.drop_last())
    }
}

/// The flag sequence that keeps exactly the records whose write succeeded.
pub open spec fn kept_of(failed: Seq<bool>) -> Seq<bool> {
    failed.map_values(|b: bool| !b)
}

/// The flag sequence that keeps exactly the records not yet marked removed.
pub open spec fn live_mask(s: Seq<(Seq<char>, u64)>) -> Seq<bool> {
    s.map_values(|p: (Seq<char>, u64)| p.0.len() > 0)
}

/// Some kept position of `s` carries the record `x`.
spec fn picked_from(s: Seq<(Seq<char>, u64)>, kept: Seq<bool>, x: (Seq<char>, u64)) -> bool {
    exists|m: int| #![trigger s[m], kept[m]] 0 <= m < s.len() && kept[m] && s[m] == x
}

proof fn lemma_filter_kept_member(s: Seq<(Seq<char>, u64)>, kept: Seq<bool>)
    requires
        s.len() == kept.len(),
    ensures
        filter_kept(s, kept).len() <= s.len(),
        forall|j: int|
            0 <= j < filter_kept(s, kept).len() ==> picked_from(
                s,
                kept,
                #[trigger] filter_kept(s, kept)[j],
            ),
    decreases s.len(),
{
    if s.len() > 0 {
        lemma_filter_kept_member(s.drop_last(), kept.drop_last());
        let f1 = filter_kept(s.drop_last(), kept.drop_last());
        let f = filter_kept(s, kept);
        assert forall|j: int| 0 <= j < f.len() implies picked_from(s, kept, #[trigger] f[j]) by {
            if kept[s.len() - 1] && j == f.len() - 1 {
                assert(kept[s.len() - 1] && s[s.len() - 1] == f[j]);
                assert(picked_from(s, kept, f[j]));
            } else {
                assert(0 <= j < f1.len() && f[j] == f1[j]);
                assert(picked_from(s.drop_last(), kept.drop_last(), f1[j]));
                let m = choose|m: int|
                    #![trigger s.drop_last()[m], kept.drop_last()[m]]
                    0 <= m < s.drop_last().len() && kept.drop_last()[m] && s.drop_last()[m]
                        == f1[j];
                assert(0 <= m < s.len() && kept[m] && s[m] == f[j]);
                assert(picked_from(s, kept, f[j]));
            }
        }
    }
}

proof fn lemma_filter_kept_names_ok(s: Seq<(Seq<char>, u64)>, kept: Seq<bool>)
    requires
        s.len() == kept.len(),
        forall|i: int|
            0 <= i < s.len() && kept[i] ==> (#[trigger] s[i]).0.len() > 0,
        forall|i: int, j: int|
            0 <= i < j < s.len() && kept[i] && kept[j] ==> (#[trigger] s[i]).0 != (
            #[trigger] s[j]).0,
    ensures
        names_ok(filter_kept(s, kept)),
    decreases s.len(),
{
    if s.len() > 0 {
        lemma_filter_kept_names_ok(s.drop_last(), kept.drop_last());
        let f1 = filter_kept(s.drop_last(), kept.drop_last());
        let f = filter_kept(s, kept);
        if kept[s.len() - 1] {
            lemma_filter_kept_member(s.drop_last(), kept.drop_last());
            assert forall|j: int| 0 <= j < f1.len() implies (#[trigger] f1[j]).0 != s.last().0 by {
                assert(picked_from(s.drop_last(), kept.drop_last(), f1[j]));
                let m = choose|m: int|
                    #![trigger s.drop_last()[m], kept.drop_last()[m]]
                    0 <= m < s.drop_last().len() && kept.drop_last()[m] && s.drop_last()[m]
                        == f1[j];
                assert(s[m].0 != s[s.len() - 1].0);
            }
        }
    }
}

proof fn lemma_filter_kept_agree(a: Seq<(Seq<char>, u64)>, b: Seq<(Seq<char>, u64)>, kept: Seq<
    bool,
>)
    requires
        a.len() == b.len(),
        a.len() == kept.len(),
        forall|i: int| 0 <= i < a.len() && kept[i] ==> #[trigger] a[i] == #[trigger] b[i],
    ensures
        filter_kept(a, kept) == filter_kept(b, kept),
    decreases a.len(),
{
    if a.len() > 0 {
        lemma_filter_kept_agree(a.drop_last(), b.drop_last(), kept.drop_last());
        if kept[a.len() - 1] {
            assert(a.last() == b.last());
        }
    }
}

/// Uniqueness: in a well-formed registry no two live records share a name,
/// so at most one live record holds a given username at any instant.
pub proof fn lemma_at_most_one_live(r: &Registry, i: int, j: int)
    requires
        r.wf(),
        0 <= i < r.live().len(),
        0 <= j < r.live().len(),
        i != j,
    ensures
        r.live()[i].0 != r.live()[j].0,
{
}

/// Lazy pruning: a record whose write failed is dropped by the sweep of
/// the same pass, and its name is absent from every later fan-out — no
/// record of the pruned registry carries it.
pub proof fn lemma_pruned_absent(s: Seq<(Seq<char>, u64)>, failed: Seq<bool>, i: int)
    requires
        names_ok(s),
        s.len() == failed.len(),
        0 <= i < s.len(),
        failed[i],
    ensures
        forall|j: int|
            0 <= j < filter_kept(s, kept_of(failed)).len() ==> (#[trigger] filter_kept(
                s,
                kept_of(failed),
            )[j]).0 != s[i].0,
{
    lemma_filter_kept_member(s, kept_of(failed));
    let f = filter_kept(s, kept_of(failed));
    assert forall|j: int| 0 <= j < f.len() implies (#[trigger] f[j]).0 != s[i].0 by {
        assert(picked_from(s, kept_of(failed), f[j]));
        let m = choose|m: int|
            #![trigger s[m], kept_of(failed)[m]]
            0 <= m < s.len() && kept_of(failed)[m] && s[m] == f[j];
        assert(!failed[m]);
        if m < i {
            assert(s[m].0 != s[i].0);
        } else {
            assert(s[i].0 != s[m].0);
        }
    }
}

/// The live client list and the operations of the broadcast loop.
pub struct Registry {
    clients: Vec<ClientRecord>,
}

impl Registry {
    /// The live records as plain values: each client's name and handle,
    /// in join order.
    pub closed spec fn live(&self) -> Seq<(Seq<char>, u64)> {
        self.clients@.map_values(|c: ClientRecord| (c.username@, c.conn))
    }

    /// The live names in join order.
    pub open spec fn names(&self) -> Seq<Seq<char>> {
        self.live().map_values(|p: (Seq<char>, u64)| p.0)
    }

    /// Whether some live record carries `name`.
    pub open spec fn has_user(&self, name: Seq<char>) -> bool {
        exists|i: int| 0 <= i < self.live().len() && (#[trigger] self.live()[i]).0 == name
    }

    /// Well-formedness: live names are pairwise distinct and non-empty.
    pub open spec fn wf(&self) -> bool {
        names_ok(self.live())
    }

    /// An empty registry: no client is online.
    pub fn new() -> (r: Registry)
        ensures
            r.live() == Seq::<(Seq<char>, u64)>::empty(),
            r.wf(),
    {
        let r = Registry { clients: Vec::new() };
        proof {
            assert(r.live() =~= Seq::<(Seq<char>, u64)>::empty());
        }
        r
    }

    /// How many clients are live.
    pub fn client_count(&self) -> (n: usize)
        ensures
            n == self.live().len(),
    {
        self.clients.len()
    }

    /// The name of the live client at position `i` of join order.
    pub fn username_at(&self, i: usize) -> (r: String)
        requires
            i < self.live().len(),
        ensures
            r@ == self.live()[i as int].0,
    {
        self.clients[i].username.clone()
    }

    /// Whether a user of this name is currently online.
    pub fn is_online(&self, username: &str) -> (r: bool)
        ensures
            r == self.has_user(username@),
    {
        let wanted: String = username.to_owned();
        let mut i: usize = 0;
        while i < self.clients.len()
            invariant
                wanted@ == username@,
                i <= self.clients.len(),
                forall|k: int| 0 <= k < i ==> (#[trigger] self.live()[k]).0 != username@,
            decreases self.clients.len() - i,
        {
            if self.clients[i].username == wanted {
                proof {
                    assert((self.live()[i as int]).0 == username@);
                }
                return true;
            }
            i = i + 1;
        }
        false
    }

    /// The roster block of the greeting: every live name in join order,
    /// each followed by a newline.
    pub fn clients_to_string(&self) -> (r: String)
        ensures
            r@ == roster_spec(self.names()),
    {
        let mut r = String::new();
        let mut i: usize = 0;
        proof {
            assert(self.names().take(0) =~= Seq::<Seq<char>>::empty());
        }
        while i < self.clients.len()
            invariant
                i <= self.clients.len(),
                self.clients.len() == self.names().len(),
                r@ == roster_spec(self.names().take(i as int)),
            decreases self.clients.len() - i,
        {
            r.append(self.clients[i].username.as_str());
            r.append("\n");
            proof {
                assert(self.names().take(i + 1).drop_last() =~= self.names().take(i as int));
                assert(self.names().take(i + 1).last() == self.names()[i as int]);
                assert(r@ =~= roster_spec(self.names().take(i + 1)));
            }
            i = i + 1;
        }
        proof {
            assert(self.names().take(self.names().len() as int) =~= self.names());
        }
        r
    }

    /// Admission: a registration is accepted exactly when the requested
    /// name is neither empty nor already live. An accepted client is
    /// appended to the live list and handed its greeting — the welcome
    /// banner and the roster of the clients admitted before it. A rejected
    /// registration leaves the registry unchanged, and the caller is to
    /// close the connection without explanation.
    pub fn register(&mut self, username: String, conn: u64) -> (r: Option<String>)
        requires
            old(self).wf(),
        ensures
            final(self).wf(),
            r is Some <==> (username@.len() > 0 && !old(self).has_user(username@)),
            r matches Some(g) ==> {
                &&& final(self).live() == old(self).live().push((username@, conn))
                &&& g@ == greeting_spec(old(self).names())
            },
            r is None ==> final(self).live() == old(self).live(),
    {
        if username.as_str().unicode_len() == 0 {
            return None;
        }
        if self.is_online(username.as_str()) {
            return None;
        }
        let mut g = String::new();
        g.append("Welcome to my chat server!\n");
        g.append("Currently online:\n");
        let roster = self.clients_to_string();
        g.append(roster.as_str());
        proof {
            assert(g@ =~= greeting_spec(self.names()));
        }
        let ghost prior = self.live();
        self.clients.push(ClientRecord { username, conn });
        proof {
            assert(self.live() =~= prior.push((username@, conn)));
            assert forall|i: int, j: int|
                0 <= i < j < self.live().len() implies (#[trigger] self.live()[i]).0 != (
            #[trigger] self.live()[j]).0 by {
                if j == self.live().len() - 1 {
                    assert(prior[i].0 != username@);
                }
            }
        }
        Some(g)
    }

    /// Broadcast fan-out: the plan for one dequeued message is, for every
    /// live record in join order, that record's connection handle and the
    /// formatted line to write to it — the sender's name and the body
    /// verbatim, coloured as the sender's own echo exactly on the sender's
    /// record. The caller performs the writes and reports failures to
    /// `apply_write_results`.
    pub fn plan_broadcast(&self, sender: &str, body: &str) -> (r: Vec<(u64, String)>)
        ensures
            r@.len() == self.live().len(),
            forall|i: int|
                0 <= i < r@.len() ==> {
                    &&& (#[trigger] r@[i]).0 == self.live()[i].1
                    &&& r@[i].1@ == format_spec(sender@, body@, self.live()[i].0 == sender@)
                },
    {
        let wanted: String = sender.to_owned();
        let mut r: Vec<(u64, String)> = Vec::new();
        let mut i: usize = 0;
        while i < self.clients.len()
            invariant
                wanted@ == sender@,
                i <= self.clients.len(),
                self.clients.len() == self.live().len(),
                r@.len() == i,
                forall|k: int|
                    0 <= k < i ==> {
                        &&& (#[trigger] r@[k]).0 == self.live()[k].1
                        &&& r@[k].1@ == format_spec(sender@, body@, self.live()[k].0 == sender@)
                    },
            decreases self.clients.len() - i,
        {
            let is_self = self.clients[i].username == wanted;
            let line = format_message(sender, body, is_self);
            r.push((self.clients[i].conn, line));
            i = i + 1;
        }
        r
    }

    /// Marking: sets the empty-name removal sentinel, in place, on every
    /// record whose write failed; every other record is untouched. The
    /// sweep of the same pass then drops the marked records.
    pub fn mark_failed(&mut self, failed: &Vec<bool>)
        requires
            failed@.len() == old(self).live().len(),
        ensures
            final(self).live().len() == old(self).live().len(),
            forall|i: int|
                0 <= i < final(self).live().len() ==> #[trigger] final(self).live()[i] == (
                if failed@[i] {
                    (Seq::<char>::empty(), old(self).live()[i].1)
                } else {
                    old(self).live()[i]
                }),
    {
        let mut i: usize = 0;
        while i < self.clients.len()
            invariant
                failed@.len() == old(self).live().len(),
                i <= self.clients.len(),
                self.clients.len() == old(self).clients.len(),
                forall|k: int|
                    i <= k < self.live().len() ==> #[trigger] self.live()[k] == old(self).live()[k],
                forall|k: int|
                    0 <= k < i ==> #[trigger] self.live()[k] == (if failed@[k] {
                        (Seq::<char>::empty(), old(self).live()[k].1)
                    } else {
                        old(self).live()[k]
                    }),
            decreases self.clients.len() - i,
        {
            let ghost pre = self.live();
            if failed[i] {
                self.clients[i].username = String::new();
                proof {
                    assert forall|k: int|
                        0 <= k < self.live().len() && k != i implies #[trigger] self.live()[k]
                        == pre[k] by {}
                    assert((self.live()[i as int]).0 =~= Seq::<char>::empty());
                    assert(self.live()[i as int] == (
                        Seq::<char>::empty(),
                        pre[i as int].1,
                    ));
                }
            }
            i = i + 1;
        }
    }

    /// The sweep: atomically drops every record marked with the empty-name
    /// sentinel, keeping all others in join order.
    pub fn sweep(&mut self)
        ensures
            final(self).live() == filter_kept(old(self).live(), live_mask(old(self).live())),
    {
        let ghost prior = self.live();
        let mut retained: Vec<ClientRecord> = Vec::new();
        let mut i: usize = 0;
        proof {
            assert(prior.take(0) =~= Seq::<(Seq<char>, u64)>::empty());
            assert(live_mask(prior).take(0) =~= Seq::<bool>::empty());
            assert(retained@.map_values(|c: ClientRecord| (c.username@, c.conn)) =~= filter_kept(
                prior.take(0),
                live_mask(prior).take(0),
            ));
        }
        while i < self.clients.len()
            invariant
                i <= self.clients.len(),
                prior == self.live(),
                self.clients.len() == prior.len(),
                retained@.map_values(|c: ClientRecord| (c.username@, c.conn)) == filter_kept(
                    prior.take(i as int),
                    live_mask(prior).take(i as int),
                ),
            decreases self.clients.len() - i,
        {
            proof {
                assert(prior.take(i + 1).drop_last() =~= prior.take(i as int));
                assert(live_mask(prior).take(i + 1).drop_last() =~= live_mask(prior).take(i as int));
                assert(prior.take(i + 1).last() == prior[i as int]);
                assert(live_mask(prior).take(i + 1)[i as int] == (prior[i as int].0.len() > 0));
            }
            if self.clients[i].username.as_str().unicode_len() > 0 {
                retained.push(self.clients[i].clone());
                proof {
                    assert(retained@.map_values(|c: ClientRecord| (c.username@, c.conn)) =~=
                    filter_kept(prior.take(i + 1), live_mask(prior).take(i + 1)));
                }
            } else {
                proof {
                    assert(retained@.map_values(|c: ClientRecord| (c.username@, c.conn)) =~=
                    filter_kept(prior.take(i + 1), live_mask(prior).take(i + 1)));
                }
            }
            i = i + 1;
        }
        proof {
            assert(prior.take(prior.len() as int) =~= prior);
            assert(live_mask(prior).take(prior.len() as int) =~= live_mask(prior));
        }
        self.clients = retained;
    }

    /// One pruning pass after a fan-out: marks every record whose write
    /// failed with the removal sentinel, then sweeps. What remains are
    /// exactly the records whose write succeeded, in join order; the
    /// registry is well-formed again and every pruned name is gone.
    pub fn apply_write_results(&mut self, failed: &Vec<bool>)
        requires
            old(self).wf(),
            failed@.len() == old(self).live().len(),
        ensures
            final(self).wf(),
            final(self).live() == filter_kept(old(self).live(), kept_of(failed@)),
    {
        let ghost prior = self.live();
        self.mark_failed(failed);
        let ghost marked = self.live();
        self.sweep();
        proof {
            assert(live_mask(marked) =~= kept_of(failed@));
            lemma_filter_kept_agree(marked, prior, kept_of(failed@));
            lemma_filter_kept_names_ok(prior, kept_of(failed@));
        }
    }
}

} // verus!
