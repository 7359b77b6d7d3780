//! The name-to-node binding table of a directory.
//!
//! A directory holds its bindings as an association list kept strictly sorted
//! by name in lexicographic byte order, so iteration enumerates names in that
//! order and names are unique. This module gives the order, the ghost view of
//! a binding, and the specification-level find, insert and remove on sorted
//! binding sequences, with the lemmas the filesystem operations need.

use vstd::prelude::*;

verus! {

/// One name-to-node binding of a directory.
pub struct ChildEntry {
    pub name: Vec<u8>,
    pub id: usize,
}

/// Ghost view of a binding: the name's bytes and the node index it binds.
#[verifier::ext_equal]
pub ghost struct ChildView {
    pub name: Seq<u8>,
    pub id: int,
}

impl View for ChildEntry {
    type V = ChildView;

    open spec fn view(&self) -> ChildView {
        ChildView { name: self.name@, id: self.id as int }
    }
}

/// Strict lexicographic order on byte strings: a proper prefix comes first,
/// otherwise the first differing byte decides.
pub open spec fn lex_lt(a: Seq<u8>, b: Seq<u8>) -> bool
    decreases a.len(),
{
    if b.len() == 0 {
        false
    } else if a.len() == 0 {
        true
    } else if a[0] < b[0] {
        true
    } else if a[0] > b[0] {
        false
    } else {
        lex_lt(a.drop_first(), b.drop_first())
    }
}

/// Of two byte strings, exactly one of `a < b`, `b < a`, `a == b` holds.
pub proof fn lemma_lex_trichotomy(a: Seq<u8>, b: Seq<u8>)
    ensures
        lex_lt(a, b) || lex_lt(b, a) || a == b,
        !(lex_lt(a, b) && lex_lt(b, a)),
        lex_lt(a, b) ==> a != b,
    decreases a.len(),
{
    if a.len() > 0 && b.len() > 0 && a[0] == b[0] {
        lemma_lex_trichotomy(a.drop_first(), b.drop_first());
        if a.drop_first() == b.drop_first() {
            assert forall|i: int| 0 <= i < a.len() implies a[i] == b[i] by {
                if i > 0 {
                    assert(a.drop_first()[i - 1] == b.drop_first()[i - 1]);
                }
            }
            assert(a =~= b);
        }
        if a == b {
            assert(a.drop_first() =~= b.drop_first());
        }
    } else if a.len() == 0 && b.len() == 0 {
        assert(a =~= b);
    }
}

/// The lexicographic order is transitive.
pub proof fn lemma_lex_trans(a: Seq<u8>, b: Seq<u8>, c: Seq<u8>)
    requires
        lex_lt(a, b),
        lex_lt(b, c),
    ensures
        lex_lt(a, c),
    decreases a.len(),
{
    if a.len() > 0 && b.len() > 0 && c.len() > 0 && a[0] == b[0] && b[0] == c[0] {
        lemma_lex_trans(a.drop_first(), b.drop_first(), c.drop_first());
    }
}

/// Two byte strings that agree on their first `i` bytes compare as their
/// tails from `i` on compare.
pub proof fn lemma_lex_lt_skip(a: Seq<u8>, b: Seq<u8>, i: int)
    requires
        0 <= i <= a.len(),
        i <= b.len(),
        forall|k: int| 0 <= k < i ==> a[k] == b[k],
    ensures
        lex_lt(a, b) == lex_lt(a.skip(i), b.skip(i)),
    decreases i,
{
    if i > 0 {
        assert forall|k: int| 0 <= k < i - 1 implies a.drop_first()[k] == b.drop_first()[k] by {
            assert(a.drop_first()[k] == a[k + 1]);
            assert(b.drop_first()[k] == b[k + 1]);
        }
        lemma_lex_lt_skip(a.drop_first(), b.drop_first(), i - 1);
        assert(a.skip(i) =~= a.drop_first().skip(i - 1));
        assert(b.skip(i) =~= b.drop_first().skip(i - 1));
    } else {
        assert(a.skip(0) =~= a);
        assert(b.skip(0) =~= b);
    }
}

/// Compares two byte strings in the lexicographic order.
pub fn lex_less(a: &[u8], b: &[u8]) -> (r: bool)
    ensures
        r == lex_lt(a@, b@),
{
    let mut i: usize = 0;
    while i < a.len() && i < b.len()
        invariant
            0 <= i <= a@.len(),
            i <= b@.len(),
            forall|k: int| 0 <= k < i ==> a@[k] == b@[k],
        decreases a@.len() - i,
    {
        if a[i] != b[i] {
            proof {
                lemma_lex_lt_skip(a@, b@, i as int);
                assert(a@.skip(i as int)[0] == a@[i as int]);
                assert(b@.skip(i as int)[0] == b@[i as int]);
            }
            return a[i] < b[i];
        }
        i = i + 1;
    }
    proof {
        lemma_lex_lt_skip(a@, b@, i as int);
    }
    a.len() < b.len()
}

/// A directory's bindings stand in strictly ascending name order.
pub open spec fn entries_sorted(cs: Seq<ChildView>) -> bool {
    forall|i: int, j: int| 0 <= i < j < cs.len() ==> lex_lt(cs[i].name, cs[j].name)
}

/// The node index bound to `name`, scanning from the front.
pub open spec fn find_entry(cs: Seq<ChildView>, name: Seq<u8>) -> Option<int>
    decreases cs.len(),
{
    if cs.len() == 0 {
        None
    } else if cs[0].name == name {
        Some(cs[0].id)
    } else {
        find_entry(cs.drop_first(), name)
    }
}

/// Whether `name` is bound.
pub open spec fn has_entry(cs: Seq<ChildView>, name: Seq<u8>) -> bool {
    find_entry(cs, name) is Some
}

/// The bindings with `e` inserted at its sorted position.
pub open spec fn insert_sorted(cs: Seq<ChildView>, e: ChildView) -> Seq<ChildView>
    decreases cs.len(),
{
    if cs.len() == 0 {
        seq![e]
    } else if lex_lt(e.name, cs[0].name) {
        seq![e] + cs
    } else {
        seq![cs[0]] + insert_sorted(cs.drop_first(), e)
    }
}

/// The bindings with the binding of `name` removed (the first one, were there
/// several; in a sorted table there is at most one).
pub open spec fn remove_name(cs: Seq<ChildView>, name: Seq<u8>) -> Seq<ChildView>
    decreases cs.len(),
{
    if cs.len() == 0 {
        cs
    } else if cs[0].name == name {
        cs.drop_first()
    } else {
        seq![cs[0]] + remove_name(cs.drop_first(), name)
    }
}

/// Scanning a table whose first `i` names all miss finds the same binding as
/// scanning from position `i` on.
pub proof fn lemma_find_entry_skip(cs: Seq<ChildView>, name: Seq<u8>, i: int)
    requires
        0 <= i <= cs.len(),
        forall|k: int| 0 <= k < i ==> cs[k].name != name,
    ensures
        find_entry(cs, name) == find_entry(cs.skip(i), name),
    decreases i,
{
    if i > 0 {
        lemma_find_entry_skip(cs.drop_first(), name, i - 1);
        assert(cs.skip(i) =~= cs.drop_first().skip(i - 1));
    } else {
        assert(cs.skip(0) =~= cs);
    }
}

/// A found binding is one of the table's elements, and a bound name occurs in
/// the table.
pub proof fn lemma_find_entry_exists(cs: Seq<ChildView>, name: Seq<u8>)
    ensures
        match find_entry(cs, name) {
            Some(id) => exists|j: int|
                0 <= j < cs.len() && cs[j].name == name && #[trigger] cs[j].id == id,
            None => forall|j: int| 0 <= j < cs.len() ==> cs[j].name != name,
        },
    decreases cs.len(),
{
    if cs.len() > 0 && cs[0].name != name {
        lemma_find_entry_exists(cs.drop_first(), name);
        match find_entry(cs, name) {
            Some(id) => {
                let j = choose|j: int|
                    0 <= j < cs.drop_first().len() && cs.drop_first()[j].name == name
                        && #[trigger] cs.drop_first()[j].id == id;
                assert(cs[j + 1].name == name && cs[j + 1].id == id);
            },
            None => {
                assert forall|j: int| 0 <= j < cs.len() implies cs[j].name != name by {
                    if j > 0 {
                        assert(cs.drop_first()[j - 1].name != name);
                    }
                }
            },
        }
    }
}

/// Inserting a fresh binding into a sorted table keeps it sorted, binds the
/// new name, leaves every other name's binding alone, and adds exactly the
/// new element.
pub proof fn lemma_insert_sorted_props(cs: Seq<ChildView>, e: ChildView)
    requires
        entries_sorted(cs),
        !has_entry(cs, e.name),
    ensures
        entries_sorted(insert_sorted(cs, e)),
        insert_sorted(cs, e).len() == cs.len() + 1,
        forall|n: Seq<u8>|
            #[trigger] find_entry(insert_sorted(cs, e), n) == if n == e.name {
                Some(e.id)
            } else {
                find_entry(cs, n)
            },
        forall|j: int|
            0 <= j < insert_sorted(cs, e).len() ==> (#[trigger] insert_sorted(cs, e)[j] == e
                || cs.contains(insert_sorted(cs, e)[j])),
    decreases cs.len(),
{
    lemma_lex_trichotomy(e.name, if cs.len() > 0 { cs[0].name } else { Seq::empty() });
    if cs.len() == 0 {
        assert(insert_sorted(cs, e) =~= seq![e]);
        assert forall|n: Seq<u8>|
            #[trigger] find_entry(insert_sorted(cs, e), n) == if n == e.name {
                Some(e.id)
            } else {
                find_entry(cs, n)
            } by {
            assert(insert_sorted(cs, e)[0] == e);
            assert(insert_sorted(cs, e).drop_first() =~= cs);
        }
    } else if lex_lt(e.name, cs[0].name) {
        let r = insert_sorted(cs, e);
        assert(r == seq![e] + cs);
        assert(r[0] == e);
        assert(r.drop_first() =~= cs);
        assert forall|i: int, j: int| 0 <= i < j < r.len() implies lex_lt(r[i].name, r[j].name) by {
            if i > 0 {
                assert(r[i] == cs[i - 1] && r[j] == cs[j - 1]);
            } else {
                assert(r[j] == cs[j - 1]);
                if j > 1 {
                    lemma_lex_trans(e.name, cs[0].name, cs[j - 1].name);
                }
            }
        }
        assert forall|j: int| 0 <= j < r.len() implies (#[trigger] r[j] == e || cs.contains(
            r[j],
        )) by {
            if j > 0 {
                assert(r[j] == cs[j - 1]);
            }
        }
    } else {
        // e sorts behind the head: recurse on the tail.
        let r = insert_sorted(cs, e);
        let tail = insert_sorted(cs.drop_first(), e);
        assert(entries_sorted(cs.drop_first())) by {
            assert forall|i: int, j: int|
                0 <= i < j < cs.drop_first().len() implies lex_lt(
                cs.drop_first()[i].name,
                cs.drop_first()[j].name,
            ) by {
                assert(cs.drop_first()[i] == cs[i + 1] && cs.drop_first()[j] == cs[j + 1]);
            }
        }
        lemma_insert_sorted_props(cs.drop_first(), e);
        assert(r == seq![cs[0]] + tail);
        assert(r[0] == cs[0]);
        assert(r.drop_first() =~= tail);
        // every tail element's name sorts strictly behind the head's
        assert forall|j: int| 0 <= j < tail.len() implies lex_lt(cs[0].name, tail[j].name) by {
            if tail[j] == e {
                assert(lex_lt(cs[0].name, e.name));
            } else {
                assert(cs.drop_first().contains(tail[j]));
                let k = choose|k: int|
                    0 <= k < cs.drop_first().len() && cs.drop_first()[k] == tail[j];
                assert(cs[k + 1] == tail[j]);
            }
        }
        assert forall|i: int, j: int| 0 <= i < j < r.len() implies lex_lt(r[i].name, r[j].name) by {
            if i > 0 {
                assert(r[i] == tail[i - 1] && r[j] == tail[j - 1]);
            } else {
                assert(r[j] == tail[j - 1]);
            }
        }
        assert forall|n: Seq<u8>|
            #[trigger] find_entry(r, n) == if n == e.name {
                Some(e.id)
            } else {
                find_entry(cs, n)
            } by {
            assert(find_entry(r, n) == if r[0].name == n {
                Some(r[0].id)
            } else {
                find_entry(tail, n)
            });
        }
        assert forall|j: int| 0 <= j < r.len() implies (#[trigger] r[j] == e || cs.contains(
            r[j],
        )) by {
            if j == 0 {
                assert(cs.contains(cs[0]));
            } else {
                assert(r[j] == tail[j - 1]);
                if tail[j - 1] != e {
                    let k = choose|k: int|
                        0 <= k < cs.drop_first().len() && cs.drop_first()[k] == tail[j - 1];
                    assert(cs[k + 1] == tail[j - 1]);
                }
            }
        }
    }
}

/// Removing a name from a sorted table keeps it sorted, unbinds exactly that
/// name, and keeps only elements of the table.
pub proof fn lemma_remove_name_props(cs: Seq<ChildView>, name: Seq<u8>)
    requires
        entries_sorted(cs),
    ensures
        entries_sorted(remove_name(cs, name)),
        remove_name(cs, name).len() == if has_entry(cs, name) {
            cs.len() - 1
        } else {
            cs.len() as int
        },
        forall|n: Seq<u8>|
            #[trigger] find_entry(remove_name(cs, name), n) == if n == name {
                None
            } else {
                find_entry(cs, n)
            },
        forall|j: int|
            0 <= j < remove_name(cs, name).len() ==> cs.contains(
                #[trigger] remove_name(cs, name)[j],
            ),
    decreases cs.len(),
{
    if cs.len() == 0 {
    } else if cs[0].name == name {
        let r = remove_name(cs, name);
        assert(r == cs.drop_first());
        assert forall|i: int, j: int| 0 <= i < j < r.len() implies lex_lt(r[i].name, r[j].name) by {
            assert(r[i] == cs[i + 1] && r[j] == cs[j + 1]);
        }
        assert forall|n: Seq<u8>|
            #[trigger] find_entry(r, n) == if n == name {
                None
            } else {
                find_entry(cs, n)
            } by {
            if n == name {
                // the head bound `name`; behind it every name sorts strictly later
                lemma_find_entry_exists(r, n);
                if has_entry(r, n) {
                    let j = choose|j: int|
                        0 <= j < r.len() && r[j].name == n && #[trigger] r[j].id == find_entry(
                            r,
                            n,
                        )->Some_0;
                    assert(cs[j + 1] == r[j]);
                    lemma_lex_trichotomy(cs[0].name, cs[j + 1].name);
                }
            }
        }
        assert forall|j: int| 0 <= j < r.len() implies cs.contains(#[trigger] r[j]) by {
            assert(r[j] == cs[j + 1]);
        }
    } else {
        let r = remove_name(cs, name);
        let tail = remove_name(cs.drop_first(), name);
        assert(entries_sorted(cs.drop_first())) by {
            assert forall|i: int, j: int|
                0 <= i < j < cs.drop_first().len() implies lex_lt(
                cs.drop_first()[i].name,
                cs.drop_first()[j].name,
            ) by {
                assert(cs.drop_first()[i] == cs[i + 1] && cs.drop_first()[j] == cs[j + 1]);
            }
        }
        lemma_remove_name_props(cs.drop_first(), name);
        assert(r == seq![cs[0]] + tail);
        assert(r[0] == cs[0]);
        assert(r.drop_first() =~= tail);
        assert forall|j: int| 0 <= j < tail.len() implies lex_lt(cs[0].name, tail[j].name) by {
            assert(cs.drop_first().contains(tail[j]));
            let k = choose|k: int| 0 <= k < cs.drop_first().len() && cs.drop_first()[k] == tail[j];
            assert(cs[k + 1] == tail[j]);
        }
        assert forall|i: int, j: int| 0 <= i < j < r.len() implies lex_lt(r[i].name, r[j].name) by {
            if i > 0 {
                assert(r[i] == tail[i - 1] && r[j] == tail[j - 1]);
            } else {
                assert(r[j] == tail[j - 1]);
            }
        }
        assert forall|n: Seq<u8>|
            #[trigger] find_entry(r, n) == if n == name {
                None
            } else {
                find_entry(cs, n)
            } by {
            assert(find_entry(r, n) == if r[0].name == n {
                Some(r[0].id)
            } else {
                find_entry(tail, n)
            });
        }
        assert forall|j: int| 0 <= j < r.len() implies cs.contains(#[trigger] r[j]) by {
            if j == 0 {
                assert(cs.contains(cs[0]));
            } else {
                assert(r[j] == tail[j - 1]);
                let k = choose|k: int|
                    0 <= k < cs.drop_first().len() && cs.drop_first()[k] == tail[j - 1];
                assert(cs[k + 1] == tail[j - 1]);
            }
        }
    }
}

/// In a sorted table, the exec insertion position — the first index whose
/// name sorts behind the new name — realizes the specification insertion.
pub proof fn lemma_insert_sorted_at(cs: Seq<ChildView>, e: ChildView, pos: int)
    requires
        entries_sorted(cs),
        !has_entry(cs, e.name),
        0 <= pos <= cs.len(),
        forall|k: int| 0 <= k < pos ==> !lex_lt(e.name, #[trigger] cs[k].name),
        pos < cs.len() ==> lex_lt(e.name, cs[pos].name),
    ensures
        insert_sorted(cs, e) == cs.insert(pos, e),
    decreases cs.len(),
{
    if cs.len() == 0 {
        assert(insert_sorted(cs, e) =~= cs.insert(0, e));
    } else if lex_lt(e.name, cs[0].name) {
        assert(pos == 0) by {
            if pos > 0 {
                assert(!lex_lt(e.name, cs[0].name));
            }
        }
        assert(insert_sorted(cs, e) =~= cs.insert(0, e));
    } else {
        assert(pos > 0) by {
            lemma_find_entry_exists(cs, e.name);
            lemma_lex_trichotomy(e.name, cs[0].name);
        }
        assert(entries_sorted(cs.drop_first())) by {
            assert forall|i: int, j: int|
                0 <= i < j < cs.drop_first().len() implies lex_lt(
                cs.drop_first()[i].name,
                cs.drop_first()[j].name,
            ) by {
                assert(cs.drop_first()[i] == cs[i + 1] && cs.drop_first()[j] == cs[j + 1]);
            }
        }
        assert(!has_entry(cs.drop_first(), e.name));
        assert forall|k: int| 0 <= k < pos - 1 implies !lex_lt(
            e.name,
            #[trigger] cs.drop_first()[k].name,
        ) by {
            assert(cs.drop_first()[k] == cs[k + 1]);
        }
        if pos - 1 < cs.drop_first().len() {
            assert(cs.drop_first()[pos - 1] == cs[pos as int]);
        }
        lemma_insert_sorted_at(cs.drop_first(), e, pos - 1);
        assert(insert_sorted(cs, e) =~= cs.insert(pos, e)) by {
            assert(insert_sorted(cs, e) == seq![cs[0]] + cs.drop_first().insert(pos - 1, e));
        }
    }
}

/// In a table whose first match for `name` stands at `pos`, removal removes
/// exactly that position.
pub proof fn lemma_remove_name_at(cs: Seq<ChildView>, name: Seq<u8>, pos: int)
    requires
        0 <= pos < cs.len(),
        cs[pos].name == name,
        forall|k: int| 0 <= k < pos ==> #[trigger] cs[k].name != name,
    ensures
        remove_name(cs, name) == cs.remove(pos),
    decreases cs.len(),
{
    if pos == 0 {
        assert(remove_name(cs, name) =~= cs.remove(0));
    } else {
        assert(cs.drop_first()[pos - 1] == cs[pos as int]);
        assert forall|k: int| 0 <= k < pos - 1 implies #[trigger] cs.drop_first()[k].name
            != name by {
            assert(cs.drop_first()[k] == cs[k + 1]);
        }
        lemma_remove_name_at(cs.drop_first(), name, pos - 1);
        assert(remove_name(cs, name) =~= cs.remove(pos)) by {
            assert(remove_name(cs, name) == seq![cs[0]] + cs.drop_first().remove(pos - 1));
        }
    }
}

} // verus!
