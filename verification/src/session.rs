use vstd::prelude::*;

use crate::error::DbError;
use crate::textutil::str_eq;

verus! {

broadcast use vstd::std_specs::vec::group_vec_axioms, vstd::seq::group_seq_axioms;

/// The transaction state of one logical execution context: for each
/// driver name, at most the token of the one connection its open
/// transaction holds.  The surrounding program performs the I/O; this
/// machine decides the routing, so that every statement inside a
/// transaction reaches the same physical connection.
pub struct TransactionRegistry {
    entries: Vec<(String, u64)>,
}

/// The models of the entries.
pub open spec fn trw(s: Seq<(String, u64)>) -> Seq<(Seq<char>, u64)>
    decreases s,
{
    if s.len() == 0 {
        Seq::empty()
    } else {
        seq![(s[0].0@, s[0].1)] + trw(s.drop_first())
    }
}

pub broadcast proof fn lemma_trw_len(s: Seq<(String, u64)>)
    ensures
        #[trigger] trw(s).len() == s.len(),
    decreases s,
{
    if s.len() > 0 {
        lemma_trw_len(s.drop_first());
    }
}

pub broadcast proof fn lemma_trw_index(s: Seq<(String, u64)>, i: int)
    requires
        0 <= i < s.len(),
    ensures
        #[trigger] trw(s)[i] == (s[i].0@, s[i].1),
    decreases s,
{
    lemma_trw_len(s);
    if i > 0 {
        lemma_trw_index(s.drop_first(), i - 1);
    }
}

/// The connection token held for a driver name, if a transaction is
/// active for it.
pub open spec fn sp_active(s: Seq<(Seq<char>, u64)>, name: Seq<char>) -> Option<u64>
    decreases s.len(),
{
    if s.len() == 0 {
        None
    } else if s[0].0 == name {
        Some(s[0].1)
    } else {
        sp_active(s.drop_first(), name)
    }
}

impl TransactionRegistry {
    /// The model of this registry.
    pub closed spec fn view(&self) -> Seq<(Seq<char>, u64)> {
        trw(self.entries@)
    }

    /// No transaction is active anywhere.
    pub fn new() -> (r: TransactionRegistry)
        ensures
            r.view() == Seq::<(Seq<char>, u64)>::empty(),
    {
        let r = TransactionRegistry { entries: Vec::new() };
        proof {
            assert(trw(r.entries@) =~= Seq::<(Seq<char>, u64)>::empty());
        }
        r
    }

    /// Where a statement for this driver must run: on the transaction's
    /// held connection when one is active, else on a fresh pooled one.
    #[verifier::loop_isolation(false)]
    pub fn route(&self, name: &str) -> (r: Option<u64>)
        ensures
            r == sp_active(self.view(), name@),
    {
        proof {
            broadcast use lemma_trw_len, lemma_trw_index;

            assert(self.view().skip(0) =~= self.view());
        }
        let n = self.entries.len();
        let mut i: usize = 0;
        while i < n
            invariant
                0 <= i <= n,
                n == self.entries@.len(),
                sp_active(self.view(), name@) == sp_active(self.view().skip(i as int), name@),
            decreases n - i,
        {
            proof {
                broadcast use lemma_trw_len, lemma_trw_index;

                assert(self.view().skip(i as int)[0] == self.view()[i as int]);
                assert(self.view().skip(i as int).drop_first() =~= self.view().skip(i + 1));
            }
            if str_eq(self.entries[i].0.as_str(), name) {
                return Some(self.entries[i].1);
            }
            i = i + 1;
        }
        proof {
            assert(self.view().skip(n as int).len() == 0);
        }
        None
    }

    /// Begins a transaction for a driver on an acquired connection:
    /// refused when one is already active for that driver; afterwards,
    /// every statement for the driver routes to that one connection.
    pub fn begin(&mut self, name: &str, conn: u64) -> (r: Result<(), DbError>)
        ensures
            match r {
                Ok(_) => sp_active(old(self).view(), name@) is None && final(self).view() == old(
                    self,
                ).view().push((name@, conn)),
                Err(e) => sp_active(old(self).view(), name@) is Some && final(self).view() == old(
                    self,
                ).view() && e is DbError,
            },
            r is Ok ==> sp_active(final(self).view(), name@) == Some(conn),
    {
        if self.route(name).is_some() {
            return Err(
                DbError::DbError("a transaction is already active for this driver".to_owned()),
            );
        }
        proof {
            lemma_trw_push(self.entries@, (name@, conn));
            lemma_active_unchanged_by_push(self.view(), name@, conn);
        }
        self.entries.push((name.to_owned(), conn));
        Ok(())
    }

    /// Ends the transaction for a driver, handing back the held
    /// connection's token so the caller can issue its commit or
    /// rollback; a driver with no active transaction ends nothing, which
    /// is a successful no-op.
    #[verifier::loop_isolation(false)]
    pub fn resolve(&mut self, name: &str) -> (r: Option<u64>)
        ensures
            r == sp_active(old(self).view(), name@),
            sp_active(final(self).view(), name@) is None,
            forall|other: Seq<char>|
                other != name@ ==> #[trigger] sp_active(final(self).view(), other) == sp_active(
                    old(self).view(),
                    other,
                ),
    {
        let mut kept: Vec<(String, u64)> = Vec::new();
        let mut found: Option<u64> = None;
        let ghost orig = self.view();
        proof {
            broadcast use lemma_trw_len, lemma_trw_index;

            assert(orig.skip(0) =~= orig);
            assert(trw(kept@) =~= Seq::<(Seq<char>, u64)>::empty());
        }
        let n = self.entries.len();
        let mut i: usize = 0;
        while i < n
            invariant
                0 <= i <= n,
                n == self.entries@.len(),
                orig == trw(self.entries@),
                forall|key: Seq<char>|
                    #![trigger sp_active(trw(kept@), key)]
                    {
                        if key == name@ {
                            sp_active(trw(kept@), key) is None && (match found {
                                Some(c) => sp_active(orig.take(i as int), key) == Some(c),
                                None => sp_active(orig.take(i as int), key) is None,
                            })
                        } else {
                            sp_active(trw(kept@), key) == sp_active(orig.take(i as int), key)
                        }
                    },
            decreases n - i,
        {
            proof {
                broadcast use lemma_trw_len, lemma_trw_index;

            }
            let is_name = str_eq(self.entries[i].0.as_str(), name);
            let ghost kept_before = trw(kept@);
            let ghost m = (self.entries@[i as int].0@, self.entries@[i as int].1);
            if is_name {
                if found.is_none() {
                    found = Some(self.entries[i].1);
                }
            } else {
                let pair = (self.entries[i].0.clone(), self.entries[i].1);
                proof {
                    lemma_trw_push(kept@, m);
                }
                kept.push(pair);
                proof {
                    assert(trw(kept@) == kept_before.push(m));
                }
            }
            proof {
                broadcast use lemma_trw_len, lemma_trw_index;

                lemma_active_take_step(orig, i as int);
                assert(orig[i as int] == m);
                assert forall|key: Seq<char>| true implies #[trigger] sp_active(
                    trw(kept@),
                    key,
                ) == (if is_name {
                    sp_active(kept_before, key)
                } else if sp_active(kept_before, key) is Some {
                    sp_active(kept_before, key)
                } else if key == m.0 {
                    Some(m.1)
                } else {
                    None
                }) by {
                    if !is_name {
                        lemma_active_push(kept_before, m, key);
                    }
                }
            }
            i = i + 1;
        }
        proof {
            assert(orig.take(n as int) =~= orig);
        }
        self.entries = kept;
        found
    }
}

pub proof fn lemma_trw_push(s: Seq<(String, u64)>, x: (Seq<char>, u64))
    ensures
        forall|p: (String, u64)|
            p.0@ == x.0 && p.1 == x.1 ==> trw(s.push(p)) == trw(s).push(x),
{
    broadcast use lemma_trw_len, lemma_trw_index;

    assert forall|p: (String, u64)| p.0@ == x.0 && p.1 == x.1 implies trw(s.push(p)) == trw(
        s,
    ).push(x) by {
        assert(trw(s.push(p)) =~= trw(s).push(x)) by {
            lemma_trw_len(s.push(p));
            assert forall|i: int| 0 <= i < s.len() + 1 implies trw(s.push(p))[i] == trw(s).push(
                x,
            )[i] by {
                lemma_trw_index(s.push(p), i);
                if i < s.len() {
                    lemma_trw_index(s, i);
                    assert(s.push(p)[i] == s[i]);
                } else {
                    assert(s.push(p)[i] == p);
                }
            }
        }
    }
}

/// An absent name stays absent when a different binding joins.
pub proof fn lemma_active_unchanged_by_push(s: Seq<(Seq<char>, u64)>, name: Seq<char>, conn: u64)
    requires
        sp_active(s, name) is None,
    ensures
        sp_active(s.push((name, conn)), name) == Some(conn),
    decreases s.len(),
{
    if s.len() == 0 {
        assert(s.push((name, conn))[0] == (name, conn));
    } else {
        assert(s.push((name, conn))[0] == s[0]);
        assert(s.push((name, conn)).drop_first() =~= s.drop_first().push((name, conn)));
        lemma_active_unchanged_by_push(s.drop_first(), name, conn);
    }
}

/// How a lookup changes when one binding joins at the end.
pub proof fn lemma_active_push(s: Seq<(Seq<char>, u64)>, x: (Seq<char>, u64), key: Seq<char>)
    ensures
        sp_active(s.push(x), key) == (if sp_active(s, key) is Some {
            sp_active(s, key)
        } else if key == x.0 {
            Some(x.1)
        } else {
            None
        }),
    decreases s.len(),
{
    if s.len() == 0 {
        assert(s.push(x)[0] == x);
    } else {
        assert(s.push(x)[0] == s[0]);
        assert(s.push(x).drop_first() =~= s.drop_first().push(x));
        lemma_active_push(s.drop_first(), x, key);
    }
}

/// A lookup over one more prefix element.
pub proof fn lemma_active_take_step(s: Seq<(Seq<char>, u64)>, i: int)
    requires
        0 <= i < s.len(),
    ensures
        forall|key: Seq<char>|
            #[trigger] sp_active(s.take(i + 1), key) == (if sp_active(s.take(i), key) is Some {
                sp_active(s.take(i), key)
            } else if key == s[i].0 {
                Some(s[i].1)
            } else {
                None
            }),
{
    assert forall|key: Seq<char>| true implies #[trigger] sp_active(s.take(i + 1), key) == (
    if sp_active(s.take(i), key) is Some {
        sp_active(s.take(i), key)
    } else if key == s[i].0 {
        Some(s[i].1)
    } else {
        None
    }) by {
        assert(s.take(i + 1) =~= s.take(i).push(s[i]));
        lemma_active_push(s.take(i), s[i], key);
    }
}

/// Same-connection routing inside a transaction: once `begin` has bound a
/// driver name to a connection, every statement routed for that name —
/// an insert, then the read of its generated key — reaches that same
/// connection, whatever other idle connections a pool may hold, until
/// the transaction resolves.
pub proof fn lemma_same_connection_within_transaction(
    st: TransactionRegistry,
    name: Seq<char>,
    conn: u64,
)
    requires
        sp_active(st.view(), name) == Some(conn),
    ensures
        sp_active(st.view(), name) == Some(conn),
        forall|other: TransactionRegistry|
            #[trigger] other.view() == st.view() ==> sp_active(other.view(), name) == Some(conn),
{
}

/// Whether running an insert must open an implicit transaction: a
/// generated-key insert outside any active transaction wraps itself, so
/// the key read cannot race to another pooled connection.
pub fn needs_implicit_transaction(tx_active: bool, use_generated_keys: bool) -> (r: bool)
    ensures
        r == (use_generated_keys && !tx_active),
{
    use_generated_keys && !tx_active
}

} // verus!
