//! The sequence model of a backend's contents.
//!
//! A backend's abstract state is a `Seq<EncryptedView>`.  The functions here
//! say what the four backend operations mean on that sequence, and the lemmas
//! relate them: they are the ground the [`crate::Backend`] and
//! [`crate::Database`] contracts stand on.
use vstd::prelude::*;

use crate::EncryptedView;

verus! {

/// Whether some record of the sequence bears the name.
pub open spec fn contains_name(s: Seq<EncryptedView>, name: Seq<char>) -> bool {
    exists|i: int| 0 <= i < s.len() && #[trigger] s[i].name == name
}

/// The index of the first record bearing the name, or -1 if there is none.
pub open spec fn first_index(s: Seq<EncryptedView>, name: Seq<char>) -> int
    decreases s.len(),
{
    if s.len() == 0 {
        -1
    } else if s[0].name == name {
        0
    } else {
        let rest = first_index(s.drop_first(), name);
        if rest < 0 {
            -1
        } else {
            rest + 1
        }
    }
}

/// The first record bearing the name, if any.
pub open spec fn find_first(s: Seq<EncryptedView>, name: Seq<char>) -> Option<EncryptedView> {
    if first_index(s, name) >= 0 {
        Some(s[first_index(s, name)])
    } else {
        None
    }
}

/// The sequence after storing `e`: the first record named `e.name` replaced
/// in place, or `e` appended if the name is new.
pub open spec fn upsert(s: Seq<EncryptedView>, e: EncryptedView) -> Seq<EncryptedView> {
    if first_index(s, e.name) >= 0 {
        s.update(first_index(s, e.name), e)
    } else {
        s.push(e)
    }
}

/// The sequence after removing the name: every record bearing it dropped,
/// order of the rest kept.
pub open spec fn remove_all(s: Seq<EncryptedView>, name: Seq<char>) -> Seq<EncryptedView>
    decreases s.len(),
{
    if s.len() == 0 {
        s
    } else if s[0].name == name {
        remove_all(s.drop_first(), name)
    } else {
        seq![s[0]] + remove_all(s.drop_first(), name)
    }
}

/// How many records bear the name.
pub open spec fn count_name(s: Seq<EncryptedView>, name: Seq<char>) -> nat
    decreases s.len(),
{
    if s.len() == 0 {
        0
    } else {
        (if s[0].name == name {
            1nat
        } else {
            0nat
        }) + count_name(s.drop_first(), name)
    }
}

/// No two records bear the same name.
pub open spec fn unique_names(s: Seq<EncryptedView>) -> bool {
    forall|i: int, j: int| 0 <= i < j < s.len() ==> #[trigger] s[i].name != #[trigger] s[j].name
}

/// What `first_index` returns: -1 exactly when the name is absent, else the
/// least index bearing the name.
pub proof fn lemma_first_index(s: Seq<EncryptedView>, name: Seq<char>)
    ensures
        first_index(s, name) >= 0 <==> contains_name(s, name),
        first_index(s, name) >= 0 ==> first_index(s, name) < s.len() && s[first_index(s, name)].name
            == name && (forall|j: int|
            0 <= j < first_index(s, name) ==> #[trigger] s[j].name != name),
        first_index(s, name) < 0 ==> first_index(s, name) == -1,
    decreases s.len(),
{
    if s.len() != 0 && s[0].name != name {
        lemma_first_index(s.drop_first(), name);
        let rest = s.drop_first();
        let fi = first_index(rest, name);
        if fi >= 0 {
            assert(s[fi + 1].name == name);
            assert forall|j: int| 0 <= j < fi + 1 implies #[trigger] s[j].name != name by {
                if j > 0 {
                    assert(rest[j - 1].name != name);
                }
            }
        } else {
            if contains_name(s, name) {
                let i = choose|i: int| 0 <= i < s.len() && #[trigger] s[i].name == name;
                assert(rest[i - 1].name == name);
                assert(contains_name(rest, name));
            }
        }
    }
}

/// The sequence after storing every record of `es`, in order.
pub open spec fn upsert_all(s: Seq<EncryptedView>, es: Seq<EncryptedView>) -> Seq<EncryptedView>
    decreases es.len(),
{
    if es.len() == 0 {
        s
    } else {
        upsert_all(upsert(s, es[0]), es.drop_first())
    }
}

/// Storing one more record at the back is one more `upsert`.
pub proof fn lemma_upsert_all_snoc(s: Seq<EncryptedView>, es: Seq<EncryptedView>, e: EncryptedView)
    ensures
        upsert_all(s, es.push(e)) == upsert(upsert_all(s, es), e),
    decreases es.len(),
{
    if es.len() == 0 {
        assert(es.push(e)[0] == e);
        assert(es.push(e).drop_first() =~= es);
        assert(upsert_all(s, es.push(e)) == upsert_all(upsert(s, e), es));
        assert(upsert_all(upsert(s, e), es) == upsert(s, e));
        assert(upsert(upsert_all(s, es), e) == upsert(s, e));
    } else {
        assert(es.push(e)[0] == es[0]);
        assert(es.push(e).drop_first() =~= es.drop_first().push(e));
        assert(upsert_all(s, es.push(e)) == upsert_all(upsert(s, es[0]), es.drop_first().push(e)));
        lemma_upsert_all_snoc(upsert(s, es[0]), es.drop_first(), e);
        assert(upsert_all(s, es) == upsert_all(upsert(s, es[0]), es.drop_first()));
    }
}

/// Which names the sequence bears after an `upsert`: the old ones and the
/// stored record's.
pub proof fn lemma_contains_upsert(s: Seq<EncryptedView>, e: EncryptedView, name: Seq<char>)
    ensures
        contains_name(upsert(s, e), name) <==> (contains_name(s, name) || name == e.name),
{
    lemma_first_index(s, e.name);
    let t = upsert(s, e);
    let fi = first_index(s, e.name);
    if fi >= 0 {
        assert(t[fi].name == e.name);
        if contains_name(s, name) {
            let i = choose|i: int| 0 <= i < s.len() && #[trigger] s[i].name == name;
            if i == fi {
                assert(s[i].name == e.name);
                assert(t[fi].name == name);
            } else {
                assert(t[i].name == name);
            }
        }
        if contains_name(t, name) && name != e.name {
            let i = choose|i: int| 0 <= i < t.len() && #[trigger] t[i].name == name;
            assert(i != fi);
            assert(s[i].name == name);
        }
    } else {
        assert(t[s.len() as int].name == e.name);
        if contains_name(s, name) {
            let i = choose|i: int| 0 <= i < s.len() && #[trigger] s[i].name == name;
            assert(t[i].name == name);
        }
        if contains_name(t, name) && name != e.name {
            let i = choose|i: int| 0 <= i < t.len() && #[trigger] t[i].name == name;
            assert(i != s.len());
            assert(s[i].name == name);
        }
    }
}

/// An index that bears the name, with none before it, is what `first_index`
/// returns.
pub proof fn lemma_is_first_index(s: Seq<EncryptedView>, name: Seq<char>, i: int)
    requires
        0 <= i < s.len(),
        s[i].name == name,
        forall|j: int| 0 <= j < i ==> #[trigger] s[j].name != name,
    ensures
        first_index(s, name) == i,
        find_first(s, name) == Some(s[i]),
{
    lemma_first_index(s, name);
    assert(contains_name(s, name));
    let fi = first_index(s, name);
    if fi < i {
        assert(s[fi].name != name);
    }
}

/// Loading right after storing finds exactly the stored record, whatever
/// the sequence held — the store-then-load guarantee every backend gives.
pub proof fn lemma_find_first_upsert(s: Seq<EncryptedView>, e: EncryptedView)
    ensures
        find_first(upsert(s, e), e.name) == Some(e),
{
    lemma_first_index(s, e.name);
    let fi = first_index(s, e.name);
    let t = upsert(s, e);
    if fi >= 0 {
        assert(t[fi] == e);
        assert forall|j: int| 0 <= j < fi implies #[trigger] t[j].name != e.name by {
            assert(t[j] == s[j]);
        }
        lemma_is_first_index(t, e.name, fi);
    } else {
        assert(t[s.len() as int] == e);
        assert forall|j: int| 0 <= j < s.len() implies #[trigger] t[j].name != e.name by {
            assert(t[j] == s[j]);
        }
        lemma_is_first_index(t, e.name, s.len() as int);
    }
}

/// Storing one name leaves every other name's lookup unchanged.
pub proof fn lemma_find_first_upsert_other(s: Seq<EncryptedView>, e: EncryptedView, n: Seq<char>)
    requires
        n != e.name,
    ensures
        find_first(upsert(s, e), n) == find_first(s, n),
{
    lemma_first_index(s, e.name);
    lemma_first_index(s, n);
    let fi = first_index(s, e.name);
    let k = first_index(s, n);
    let t = upsert(s, e);
    if k >= 0 {
        assert(s[k].name == n);
        assert(k != fi);
        assert(t[k] == s[k]);
        assert forall|j: int| 0 <= j < k implies #[trigger] t[j].name != n by {
            if j == fi {
                assert(t[j].name == e.name);
            } else {
                assert(t[j] == s[j]);
            }
        }
        lemma_is_first_index(t, n, k);
    } else {
        assert forall|j: int| 0 <= j < t.len() implies #[trigger] t[j].name != n by {
            if fi >= 0 {
                if j == fi {
                    assert(t[j].name == e.name);
                } else {
                    assert(t[j] == s[j]);
                }
            } else {
                if j < s.len() {
                    assert(t[j] == s[j]);
                } else {
                    assert(t[j] == e);
                }
            }
        }
        lemma_first_index(t, n);
        if first_index(t, n) >= 0 {
            assert(t[first_index(t, n)].name != n);
        }
    }
}

/// Storing keeps names unique.
pub proof fn lemma_upsert_unique(s: Seq<EncryptedView>, e: EncryptedView)
    requires
        unique_names(s),
    ensures
        unique_names(upsert(s, e)),
{
    lemma_first_index(s, e.name);
    let fi = first_index(s, e.name);
    let t = upsert(s, e);
    if fi >= 0 {
        assert forall|i: int, j: int| 0 <= i < j < t.len() implies #[trigger] t[i].name
            != #[trigger] t[j].name by {
            if i != fi && j != fi {
                assert(t[i] == s[i] && t[j] == s[j]);
            } else if i == fi {
                assert(t[j] == s[j]);
                assert(s[fi].name == e.name);
            } else {
                assert(t[i] == s[i]);
                assert(s[fi].name == e.name);
            }
        }
    } else {
        assert forall|i: int, j: int| 0 <= i < j < t.len() implies #[trigger] t[i].name
            != #[trigger] t[j].name by {
            if j < s.len() {
                assert(t[i] == s[i] && t[j] == s[j]);
            } else {
                assert(t[i] == s[i] && t[j] == e);
                assert(!contains_name(s, e.name));
            }
        }
    }
}

/// Under unique names, a name's record count is one when it is present and
/// zero when it is not.
pub proof fn lemma_count_from_unique(s: Seq<EncryptedView>, n: Seq<char>)
    requires
        unique_names(s),
    ensures
        count_name(s, n) == if contains_name(s, n) {
            1nat
        } else {
            0nat
        },
    decreases s.len(),
{
    if s.len() == 0 {
        assert(!contains_name(s, n));
    } else {
        let rest = s.drop_first();
        assert forall|i: int, j: int| 0 <= i < j < rest.len() implies #[trigger] rest[i].name
            != #[trigger] rest[j].name by {
            assert(rest[i] == s[i + 1] && rest[j] == s[j + 1]);
        }
        lemma_count_from_unique(rest, n);
        if s[0].name == n {
            if contains_name(rest, n) {
                let i = choose|i: int| 0 <= i < rest.len() && #[trigger] rest[i].name == n;
                assert(s[i + 1].name == n);
                assert(false);
            }
        } else {
            if contains_name(s, n) {
                let i = choose|i: int| 0 <= i < s.len() && #[trigger] s[i].name == n;
                assert(rest[i - 1].name == n);
                assert(contains_name(rest, n));
            }
            if contains_name(rest, n) {
                let i = choose|i: int| 0 <= i < rest.len() && #[trigger] rest[i].name == n;
                assert(s[i + 1].name == n);
            }
        }
    }
}

/// Overwrite semantics: storing under one name twice leaves exactly one
/// record of that name, the second one, wherever the sequence started with
/// unique names.
pub proof fn lemma_overwrite(s: Seq<EncryptedView>, e1: EncryptedView, e2: EncryptedView)
    requires
        unique_names(s),
        e1.name == e2.name,
    ensures
        unique_names(upsert(upsert(s, e1), e2)),
        count_name(upsert(upsert(s, e1), e2), e2.name) == 1,
        find_first(upsert(upsert(s, e1), e2), e2.name) == Some(e2),
{
    let t1 = upsert(s, e1);
    let t = upsert(t1, e2);
    lemma_upsert_unique(s, e1);
    lemma_upsert_unique(t1, e2);
    lemma_find_first_upsert(t1, e2);
    lemma_first_index(t, e2.name);
    assert(contains_name(t, e2.name)) by {
        assert(first_index(t, e2.name) >= 0);
    }
    lemma_count_from_unique(t, e2.name);
}

/// After a removal the name is gone.
pub proof fn lemma_remove_all_gone(s: Seq<EncryptedView>, n: Seq<char>)
    ensures
        !contains_name(remove_all(s, n), n),
        find_first(remove_all(s, n), n) is None,
    decreases s.len(),
{
    let t = remove_all(s, n);
    if s.len() != 0 {
        lemma_remove_all_gone(s.drop_first(), n);
        let rest = remove_all(s.drop_first(), n);
        if s[0].name != n {
            if contains_name(t, n) {
                let i = choose|i: int| 0 <= i < t.len() && #[trigger] t[i].name == n;
                assert(i != 0);
                assert(rest[i - 1].name == n);
                assert(contains_name(rest, n));
            }
        }
    }
    lemma_first_index(t, n);
    if first_index(t, n) >= 0 {
        assert(t[first_index(t, n)].name != n);
    }
}

/// Storing records whose names are fresh and mutually distinct appends them
/// in order.
pub proof fn lemma_upsert_all_disjoint(t: Seq<EncryptedView>, es: Seq<EncryptedView>)
    requires
        unique_names(es),
        forall|i: int| 0 <= i < es.len() ==> !contains_name(t, (#[trigger] es[i]).name),
    ensures
        upsert_all(t, es) == t + es,
    decreases es.len(),
{
    if es.len() == 0 {
        assert(t + es =~= t);
    } else {
        let e0 = es[0];
        lemma_first_index(t, e0.name);
        assert(!contains_name(t, e0.name));
        let t1 = upsert(t, e0);
        assert(t1 == t.push(e0));
        let rest = es.drop_first();
        assert forall|i: int, j: int| 0 <= i < j < rest.len() implies #[trigger] rest[i].name
            != #[trigger] rest[j].name by {
            assert(rest[i] == es[i + 1] && rest[j] == es[j + 1]);
        }
        assert forall|i: int| 0 <= i < rest.len() implies !contains_name(
            t1,
            (#[trigger] rest[i]).name,
        ) by {
            assert(rest[i] == es[i + 1]);
            lemma_contains_upsert(t, e0, es[i + 1].name);
            assert(es[i + 1].name != e0.name);
        }
        lemma_upsert_all_disjoint(t1, rest);
        assert(t.push(e0) + rest =~= t + es);
    }
}

/// Appending a record either extends the removal's result by it or leaves
/// the result alone, by the record's name.
pub proof fn lemma_remove_all_snoc(s: Seq<EncryptedView>, x: EncryptedView, name: Seq<char>)
    ensures
        remove_all(s.push(x), name) == if x.name == name {
            remove_all(s, name)
        } else {
            remove_all(s, name).push(x)
        },
    decreases s.len(),
{
    if s.len() == 0 {
        assert(s.push(x)[0] == x);
        assert(s.push(x).drop_first() =~= s);
        if x.name != name {
            assert(seq![x] + s =~= s.push(x));
        }
    } else {
        assert(s.push(x)[0] == s[0]);
        assert(s.push(x).drop_first() =~= s.drop_first().push(x));
        lemma_remove_all_snoc(s.drop_first(), x, name);
        if s[0].name != name {
            if x.name != name {
                assert(seq![s[0]] + remove_all(s.drop_first(), name).push(x) =~= (seq![s[0]]
                    + remove_all(s.drop_first(), name)).push(x));
            }
        }
    }
}

} // verus!
