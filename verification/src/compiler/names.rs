//! Names in alphabetical order.

use crate::text::str_eq;
use vstd::prelude::*;
use vstd::string::*;

verus! {

/// `a` comes before `b` in alphabetical order, by the characters' numbers.
pub open spec fn text_less(a: Seq<char>, b: Seq<char>) -> bool
    decreases a.len(),
{
    if b.len() == 0 {
        false
    } else if a.len() == 0 {
        true
    } else if a[0] != b[0] {
        (a[0] as u32) < (b[0] as u32)
    } else {
        text_less(a.skip(1), b.skip(1))
    }
}

/// No name comes before itself.
pub proof fn law_text_order_is_irreflexive(a: Seq<char>)
    ensures
        !text_less(a, a),
    decreases a.len(),
{
    if a.len() > 0 {
        law_text_order_is_irreflexive(a.skip(1));
    }
}

/// Of two different names, one comes before the other.
pub proof fn law_text_order_is_total(a: Seq<char>, b: Seq<char>)
    ensures
        a == b || text_less(a, b) || text_less(b, a),
    decreases a.len(),
{
    if a.len() > 0 && b.len() > 0 {
        if a[0] == b[0] {
            law_text_order_is_total(a.skip(1), b.skip(1));
            if a.skip(1) == b.skip(1) {
                assert(a =~= seq![a[0]] + a.skip(1));
                assert(b =~= seq![b[0]] + b.skip(1));
            }
        } else {
            vstd::utf8::char_u32_cast(a[0], a[0] as u32);
            vstd::utf8::char_u32_cast(b[0], b[0] as u32);
            assert(a[0] as u32 != b[0] as u32);
        }
    } else if a.len() == 0 && b.len() == 0 {
        assert(a =~= b);
    }
}

/// A name before another one comes before all that come after that one.
pub proof fn law_text_order_is_transitive(a: Seq<char>, b: Seq<char>, c: Seq<char>)
    requires
        text_less(a, b),
        text_less(b, c),
    ensures
        text_less(a, c),
    decreases a.len(),
{
    if a.len() > 0 && b.len() > 0 && c.len() > 0 && a[0] == b[0] && b[0] == c[0] {
        law_text_order_is_transitive(a.skip(1), b.skip(1), c.skip(1));
    }
}

/// Returns `true` if `a` comes before `b` in alphabetical order.
pub fn name_less(a: &str, b: &str) -> (r: bool)
    ensures
        r == text_less(a@, b@),
{
    let n: usize = a.unicode_len();
    let m: usize = b.unicode_len();
    let mut i: usize = 0;
    assert(a@.skip(0) =~= a@ && b@.skip(0) =~= b@);
    while i < n && i < m
        invariant
            i <= n == a@.len(),
            i <= m == b@.len(),
            text_less(a@, b@) == text_less(a@.skip(i as int), b@.skip(i as int)),
        decreases n - i,
    {
        let x: char = a.get_char(i);
        let y: char = b.get_char(i);
        if x != y {
            return (x as u32) < (y as u32);
        }
        assert(a@.skip(i as int).skip(1) =~= a@.skip(i + 1));
        assert(b@.skip(i as int).skip(1) =~= b@.skip(i + 1));
        i = i + 1;
    }
    i < m
}

/// The texts of some names.
pub open spec fn texts(v: Seq<String>) -> Seq<Seq<char>> {
    Seq::new(v.len(), |i: int| v[i]@)
}

/// Each name comes before the next: none is there twice.
pub open spec fn ascending(names: Seq<Seq<char>>) -> bool {
    forall|i: int, j: int|
        0 <= i < j < names.len() ==> text_less(#[trigger] names[i], #[trigger] names[j])
}

/// Where a name is, or where it belongs: the first place whose name does not come before it.
pub open spec fn place(names: Seq<Seq<char>>, name: Seq<char>) -> int
    decreases names.len(),
{
    if names.len() == 0 || !text_less(names[0], name) {
        0
    } else {
        1 + place(names.skip(1), name)
    }
}

/// The names with one more in its place, unless it is there already.
pub open spec fn with_name(names: Seq<Seq<char>>, name: Seq<char>) -> Seq<Seq<char>> {
    let p = place(names, name);
    if p < names.len() && names[p] == name {
        names
    } else {
        names.insert(p, name)
    }
}

proof fn lemma_place(names: Seq<Seq<char>>, name: Seq<char>)
    ensures
        0 <= place(names, name) <= names.len(),
        forall|i: int| 0 <= i < place(names, name) ==> text_less(#[trigger] names[i], name),
        place(names, name) < names.len() ==> !text_less(names[place(names, name)], name),
    decreases names.len(),
{
    if names.len() > 0 && text_less(names[0], name) {
        lemma_place(names.skip(1), name);
        assert forall|i: int| 0 <= i < place(names, name) implies text_less(
            #[trigger] names[i],
            name,
        ) by {
            if i > 0 {
                assert(names.skip(1)[i - 1] == names[i]);
            }
        }
    }
}

/// What comes before its place is smaller, and what comes after it larger.
pub proof fn lemma_place_splits(names: Seq<Seq<char>>, name: Seq<char>)
    requires
        ascending(names),
    ensures
        0 <= place(names, name) <= names.len(),
        forall|i: int| 0 <= i < place(names, name) ==> text_less(#[trigger] names[i], name),
        forall|i: int|
            place(names, name) <= i < names.len() ==> #[trigger] names[i] == name || text_less(
                name,
                names[i],
            ),
        names.contains(name) <==> place(names, name) < names.len() && names[place(names, name)]
            == name,
{
    lemma_place(names, name);
    let p = place(names, name);
    assert forall|i: int| p <= i < names.len() implies #[trigger] names[i] == name || text_less(
        name,
        names[i],
    ) by {
        law_text_order_is_total(names[p], name);
        if i > p {
            assert(text_less(names[p], names[i]));
            if names[p] != name {
                law_text_order_is_transitive(name, names[p], names[i]);
            }
        }
    }
    if names.contains(name) {
        let k = choose|k: int| 0 <= k < names.len() && names[k] == name;
        law_text_order_is_irreflexive(name);
        if k > p {
            assert(text_less(names[p], names[k]));
        }
    }
}

/// Adding a name keeps the order, and the names are those there were and the new one.
pub proof fn law_names_stay_ascending(names: Seq<Seq<char>>, name: Seq<char>)
    requires
        ascending(names),
    ensures
        ascending(with_name(names, name)),
        forall|n: Seq<char>| #[trigger]
            with_name(names, name).contains(n) <==> names.contains(n) || n == name,
{
    lemma_place_splits(names, name);
    let p = place(names, name);
    let after = with_name(names, name);
    if !(p < names.len() && names[p] == name) {
        assert forall|i: int, j: int| 0 <= i < j < after.len() implies text_less(
            #[trigger] after[i],
            #[trigger] after[j],
        ) by {
            let a = if i < p {
                i
            } else {
                i - 1
            };
            let b = if j < p {
                j
            } else {
                j - 1
            };
            if i != p {
                assert(after[i] == names[a]);
            }
            if j != p {
                assert(after[j] == names[b]);
            }
        }
        assert forall|n: Seq<char>| #[trigger] after.contains(n) <==> names.contains(n) || n
            == name by {
            if names.contains(n) {
                let k = choose|k: int| 0 <= k < names.len() && names[k] == n;
                assert(after[if k < p {
                    k
                } else {
                    k + 1
                }] == n);
            }
            assert(after[p] == name);
            if after.contains(n) {
                let k = choose|k: int| 0 <= k < after.len() && after[k] == n;
                if k != p {
                    assert(names[if k < p {
                        k
                    } else {
                        k - 1
                    }] == n);
                }
            }
        }
    }
}

/// Adds a name in its place, unless it is there already.
pub fn add_name(names: &mut Vec<String>, name: &str)
    ensures
        texts(final(names)@) == with_name(texts(old(names)@), name@),
{
    let ghost all = texts(names@);
    let mut i: usize = 0;
    assert(all.skip(0) =~= all);
    while i < names.len() && name_less(names[i].as_str(), name)
        invariant
            i <= names@.len(),
            names@ == old(names)@,
            all == texts(names@),
            place(all, name@) == i + place(all.skip(i as int), name@),
        decreases names@.len() - i,
    {
        assert(all.skip(i as int)[0] == names@[i as int]@);
        assert(all.skip(i as int).skip(1) =~= all.skip(i + 1));
        i = i + 1;
    }
    assert(i < names@.len() ==> all.skip(i as int)[0] == names@[i as int]@);
    assert(place(all, name@) == i);
    if i < names.len() && str_eq(names[i].as_str(), name) {
        return;
    }
    let copy = name.to_owned();
    names.insert(i, copy);
    assert(texts(names@) =~= all.insert(i as int, name@));
}

/// Returns `true` if the name is among the others.
pub fn has_name(names: &Vec<String>, name: &str) -> (b: bool)
    ensures
        b == texts(names@).contains(name@),
{
    let mut i: usize = 0;
    while i < names.len()
        invariant
            i <= names@.len(),
            forall|j: int| 0 <= j < i ==> #[trigger] texts(names@)[j] != name@,
        decreases names@.len() - i,
    {
        assert(texts(names@)[i as int] == names@[i as int]@);
        if str_eq(names[i].as_str(), name) {
            return true;
        }
        i = i + 1;
    }
    false
}

/// A copy of the names.
pub fn copy_names(names: &Vec<String>) -> (r: Vec<String>)
    ensures
        texts(r@) == texts(names@),
{
    let mut r: Vec<String> = Vec::new();
    let mut i: usize = 0;
    assert(texts(r@) =~= texts(names@).take(0));
    while i < names.len()
        invariant
            i <= names@.len(),
            texts(r@) == texts(names@).take(i as int),
        decreases names@.len() - i,
    {
        let ghost before = texts(r@);
        let copy = names[i].clone();
        r.push(copy);
        assert(texts(r@) =~= before.push(copy@));
        assert(texts(names@).take(i + 1) =~= texts(names@).take(i as int).push(copy@));
        i = i + 1;
    }
    assert(texts(names@).take(i as int) =~= texts(names@));
    r
}

/// `part` occurs somewhere in `whole`.
pub open spec fn occurs_in(part: Seq<char>, whole: Seq<char>) -> bool {
    exists|at: int| occurs_at(part, whole, at)
}

/// `part` occurs in `whole` at `at`.
pub open spec fn occurs_at(part: Seq<char>, whole: Seq<char>, at: int) -> bool {
    0 <= at && at + part.len() <= whole.len() && whole.subrange(at, at + part.len()) == part
}

/// Returns `true` if `part` occurs somewhere in `whole`.
pub fn is_part(part: &str, whole: &str) -> (b: bool)
    ensures
        b == occurs_in(part@, whole@),
{
    let n: usize = part.unicode_len();
    let m: usize = whole.unicode_len();
    if n > m {
        return false;
    }
    let mut at: usize = 0;
    while at <= m - n
        invariant
            n == part@.len(),
            m == whole@.len(),
            n <= m,
            at <= m - n + 1,
            forall|k: int| 0 <= k < at ==> !occurs_at(part@, whole@, k),
        decreases m - n + 1 - at,
    {
        let mut i: usize = 0;
        while i < n && part.get_char(i) == whole.get_char(at + i)
            invariant
                n == part@.len(),
                m == whole@.len(),
                i <= n,
                at + n <= m,
                forall|k: int| 0 <= k < i ==> part@[k] == whole@[at + k],
            decreases n - i,
        {
            i = i + 1;
        }
        if i == n {
            assert(whole@.subrange(at as int, at + n) =~= part@);
            assert(occurs_at(part@, whole@, at as int));
            return true;
        }
        assert(whole@.subrange(at as int, at + n)[i as int] != part@[i as int]);
        at = at + 1;
    }
    false
}

} // verus!
