//! Key-value stores for scalar estimates and visit counts.
//!
//! A store maps textual keys to fixed-point scalars. A key that has never
//! been written reads as zero: the zero default is what lets the very first
//! incremental-mean update, which divides by a visit count of one, start
//! from an old estimate of zero. [`generate_id`] derives the key for a
//! (state, optional action) pair; writers and readers both go through it,
//! so the two always touch the same entry.

use vstd::prelude::*;

verus! {

use crate::codec::{dec_rep, format_decimal};

/// The key for a state and an optional action: `"<state>-<action>"` when
/// the action is present, the state alone otherwise.
pub open spec fn key_id(state: Seq<char>, action: Option<int>) -> Seq<char> {
    match action {
        Option::Some(a) => state + seq!['-'] + dec_rep(a as nat),
        Option::None => state,
    }
}

/// Derives the key text for a (state, optional action) pair.
pub fn generate_id(state: &str, action: Option<usize>) -> (r: String)
    ensures
        match action {
            Option::Some(a) => r@ == key_id(state@, Some(a as int)),
            Option::None => r@ == key_id(state@, None),
        },
{
    match action {
        Option::Some(a) => {
            let mut s = state.to_owned();
            s.append("-");
            let num = format_decimal(a);
            s.append(num.as_str());
            proof {
                reveal_strlit("-");
                assert("-"@ =~= seq!['-']);
                assert(s@ =~= key_id(state@, Some(a as int)));
            }
            s
        },
        Option::None => state.to_owned(),
    }
}

/// A mapping from textual keys to fixed-point scalars in which a key that
/// was never written holds zero.
pub trait Store: Sized {
    /// The value the store holds at `key`; zero if `key` was never written.
    spec fn stored(&self, key: Seq<char>) -> i64;

    /// An empty store: every key reads as zero.
    fn new() -> (s: Self)
        ensures
            forall|k: Seq<char>| s.stored(k) == 0,
    ;

    /// Insert-or-replace.
    fn store_value(&mut self, key: String, value: i64)
        ensures
            final(self).stored(key@) == value,
            forall|k: Seq<char>| k != key@ ==> final(self).stored(k) == old(self).stored(k),
    ;

    /// The value at `key`, zero if the key was never written. Never fails.
    fn get_value(&self, key: &String) -> (r: i64)
        ensures
            r == self.stored(key@),
    ;
}

/// The value at the first entry of `s` whose key reads `k`, or zero when no
/// entry does.
pub open spec fn find_val(s: Seq<(String, i64)>, k: Seq<char>) -> i64
    decreases s.len(),
{
    if s.len() == 0 {
        0
    } else if s[0].0@ == k {
        s[0].1
    } else {
        find_val(s.drop_first(), k)
    }
}

/// An in-memory [`Store`] backed by a vector of entries.
pub struct MemoryStore {
    entries: Vec<(String, i64)>,
}

/// Looking past a prefix with no matching key does not change the value
/// found.
proof fn lemma_find_val_skip(s: Seq<(String, i64)>, k: Seq<char>, i: int)
    requires
        0 <= i <= s.len(),
        forall|j: int| 0 <= j < i ==> #[trigger] s[j].0@ != k,
    ensures
        find_val(s, k) == find_val(s.skip(i), k),
    decreases i,
{
    if i > 0 {
        assert(s[0].0@ != k);
        assert forall|j: int| 0 <= j < i - 1 implies #[trigger] s.drop_first()[j].0@ != k by {
            assert(s.drop_first()[j] == s[j + 1]);
        }
        lemma_find_val_skip(s.drop_first(), k, i - 1);
        assert(s.drop_first().skip(i - 1) =~= s.skip(i));
    } else {
        assert(s.skip(0) =~= s);
    }
}

/// Replacing the first matching entry changes the value found at its key
/// and at no other.
proof fn lemma_find_val_update(s: Seq<(String, i64)>, i: int, e: (String, i64), k: Seq<char>)
    requires
        0 <= i < s.len(),
        forall|j: int| 0 <= j < i ==> #[trigger] s[j].0@ != e.0@,
        s[i].0@ == e.0@,
    ensures
        find_val(s.update(i, e), k) == if k == e.0@ {
            e.1
        } else {
            find_val(s, k)
        },
    decreases i,
{
    let t = s.update(i, e);
    if i == 0 {
        assert(t[0] == e);
        if k != e.0@ {
            assert(t.drop_first() =~= s.drop_first());
        }
    } else {
        assert(t[0] == s[0]);
        assert(s[0].0@ != e.0@);
        assert(t.drop_first() =~= s.drop_first().update(i - 1, e));
        assert forall|j: int| 0 <= j < i - 1 implies #[trigger] s.drop_first()[j].0@ != e.0@ by {
            assert(s.drop_first()[j] == s[j + 1]);
        }
        lemma_find_val_update(s.drop_first(), i - 1, e, k);
    }
}

/// Appending an entry whose key matches nothing earlier changes the value
/// found at its key and at no other.
proof fn lemma_find_val_push(s: Seq<(String, i64)>, e: (String, i64), k: Seq<char>)
    requires
        forall|j: int| 0 <= j < s.len() ==> #[trigger] s[j].0@ != e.0@,
    ensures
        find_val(s.push(e), k) == if k == e.0@ {
            e.1
        } else {
            find_val(s, k)
        },
    decreases s.len(),
{
    let t = s.push(e);
    if s.len() == 0 {
        assert(t[0] == e);
        assert(t.drop_first() =~= Seq::<(String, i64)>::empty());
        if k == e.0@ {
            assert(t[0].0@ == k);
            assert(find_val(t, k) == e.1);
        } else {
            assert(find_val(t, k) == find_val(t.drop_first(), k));
            assert(find_val(t, k) == 0);
        }
    } else {
        assert(t[0] == s[0]);
        assert(s[0].0@ != e.0@);
        assert(t.drop_first() =~= s.drop_first().push(e));
        assert forall|j: int| 0 <= j < s.len() - 1 implies #[trigger] s.drop_first()[j].0@ != e.0@ by {
            assert(s.drop_first()[j] == s[j + 1]);
        }
        lemma_find_val_push(s.drop_first(), e, k);
    }
}

impl Store for MemoryStore {
    closed spec fn stored(&self, key: Seq<char>) -> i64 {
        find_val(self.entries@, key)
    }

    fn new() -> (s: MemoryStore)
        ensures
            forall|k: Seq<char>| s.stored(k) == 0,
    {
        MemoryStore { entries: Vec::new() }
    }

    fn store_value(&mut self, key: String, value: i64) {
        let ghost orig = self.entries@;
        let n = self.entries.len();
        let mut i: usize = 0;
        while i < n
            invariant
                0 <= i <= n == self.entries@.len(),
                self.entries@ == orig,
                orig == old(self).entries@,
                forall|j: int| 0 <= j < i ==> #[trigger] orig[j].0@ != key@,
            decreases n - i,
        {
            if self.entries[i].0.eq(&key) {
                let ghost ent = (key, value);
                proof {
                    lemma_find_val_update(orig, i as int, ent, key@);
                    assert forall|k: Seq<char>| k != key@ implies find_val(
                        orig.update(i as int, ent),
                        k,
                    ) == find_val(orig, k) by {
                        lemma_find_val_update(orig, i as int, ent, k);
                    }
                }
                self.entries[i] = (key, value);
                proof {
                    assert(self.entries@ == orig.update(i as int, ent));
                    assert forall|k: Seq<char>| k != ent.0@ implies find_val(self.entries@, k)
                        == find_val(orig, k) by {
                        assert(find_val(orig.update(i as int, ent), k) == find_val(orig, k));
                    }
                }
                return ;
            }
            i = i + 1;
        }
        proof {
            lemma_find_val_push(orig, (key, value), key@);
            assert forall|k: Seq<char>| k != key@ implies find_val(orig.push((key, value)), k)
                == find_val(orig, k) by {
                lemma_find_val_push(orig, (key, value), k);
            }
        }
        self.entries.push((key, value));
    }

    fn get_value(&self, key: &String) -> (r: i64) {
        let n = self.entries.len();
        let mut i: usize = 0;
        while i < n
            invariant
                0 <= i <= n == self.entries@.len(),
                forall|j: int| 0 <= j < i ==> #[trigger] self.entries@[j].0@ != key@,
            decreases n - i,
        {
            if self.entries[i].0.eq(key) {
                proof {
                    lemma_find_val_skip(self.entries@, key@, i as int);
                    assert(self.entries@.skip(i as int)[0] == self.entries@[i as int]);
                }
                return self.entries[i].1;
            }
            i = i + 1;
        }
        proof {
            lemma_find_val_skip(self.entries@, key@, n as int);
            assert(self.entries@.skip(n as int) =~= Seq::<(String, i64)>::empty());
        }
        0
    }
}

} // verus!
