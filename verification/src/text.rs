//! Identifiers are strings; the contracts of this crate speak of them as
//! sequences of characters, and of lists of them as sequences of such
//! sequences.

use vstd::prelude::*;

verus! {

/// What a list of identifiers holds: the characters of each, in order.
pub open spec fn ids_of(names: Seq<String>) -> Seq<Seq<char>> {
    Seq::new(names.len(), |i: int| names[i]@)
}

/// Whether `i` is the first position at which `s` holds `id`.
pub open spec fn first_at(s: Seq<Seq<char>>, id: Seq<char>, i: int) -> bool {
    &&& 0 <= i < s.len()
    &&& s[i] == id
    &&& forall|j: int| 0 <= j < i ==> s[j] != id
}

/// The characters of an identifier that may be absent.
pub open spec fn name_of(id: Option<&String>) -> Option<Seq<char>> {
    match id {
        Some(id) => Some(id@),
        None => None,
    }
}

/// `s` without any element equal to `id`, the others in their order.
pub open spec fn without<A>(s: Seq<A>, id: A) -> Seq<A>
    decreases s.len(),
{
    if s.len() == 0 {
        s
    } else if s.last() == id {
        without(s.drop_last(), id)
    } else {
        without(s.drop_last(), id).push(s.last())
    }
}

/// What is left after `without` holds exactly the elements other than `id`
/// that the sequence held.
pub proof fn without_contains<A>(s: Seq<A>, id: A, x: A)
    ensures
        without(s, id).contains(x) <==> (x != id && s.contains(x)),
    decreases s.len(),
{
    if s.len() > 0 {
        let front = s.drop_last();
        let w = without(front, id);
        without_contains(front, id, x);
        if without(s, id).contains(x) {
            let j = choose|j: int| 0 <= j < without(s, id).len() && without(s, id)[j] == x;
            if j < w.len() {
                assert(w[j] == x);
                assert(w.contains(x));
                let k = choose|k: int| 0 <= k < front.len() && front[k] == x;
                assert(s[k] == x);
            } else {
                assert(s[s.len() - 1] == x);
            }
        }
        if x != id && s.contains(x) {
            let k = choose|k: int| 0 <= k < s.len() && s[k] == x;
            if k < s.len() - 1 {
                assert(front[k] == x);
                assert(front.contains(x));
                let j = choose|j: int| 0 <= j < w.len() && w[j] == x;
                assert(without(s, id)[j] == x);
            } else {
                assert(without(s, id)[w.len() as int] == x);
            }
        }
    }
}

/// `without` keeps a sequence free of duplicates.
pub proof fn without_no_duplicates<A>(s: Seq<A>, id: A)
    requires
        s.no_duplicates(),
    ensures
        without(s, id).no_duplicates(),
    decreases s.len(),
{
    if s.len() > 0 {
        let front = s.drop_last();
        let w = without(front, id);
        assert(front.no_duplicates()) by {
            assert forall|i: int, j: int|
                0 <= i < front.len() && 0 <= j < front.len() && i != j implies front[i]
                != front[j] by {
                assert(front[i] == s[i] && front[j] == s[j]);
            }
        }
        without_no_duplicates(front, id);
        without_contains(front, id, s.last());
        if s.last() != id {
            if w.contains(s.last()) {
                let k = choose|k: int| 0 <= k < front.len() && front[k] == s.last();
                assert(s[k] == s[s.len() - 1]);
                assert(false);
            }
            assert forall|i: int, j: int|
                0 <= i < w.len() + 1 && 0 <= j < w.len() + 1 && i != j implies without(s, id)[i]
                != without(s, id)[j] by {
                if i == w.len() {
                    assert(w.contains(w[j]));
                } else if j == w.len() {
                    assert(w.contains(w[i]));
                }
            }
        }
    }
}

/// Compares two string slices with `str`'s `==`, which holds exactly when
/// both are the same sequence of characters.
#[verifier::external_body]
pub(crate) fn same_text(a: &str, b: &str) -> (same: bool)
    ensures
        same == (a@ == b@),
{
    a == b
}

/// Appends one character with `String::push`.
#[verifier::external_body]
pub(crate) fn push_char(s: &mut String, c: char)
    ensures
        final(s)@ == old(s)@.push(c),
{
    s.push(c)
}

/// A copy of a list of identifiers.
pub fn copy_ids(names: &Vec<String>) -> (copy: Vec<String>)
    ensures
        ids_of(copy@) == ids_of(names@),
{
    let mut copy: Vec<String> = Vec::new();
    let mut i: usize = 0;
    while i < names.len()
        invariant
            i <= names.len(),
            copy.len() == i,
            forall|j: int| 0 <= j < i ==> copy[j]@ == names[j]@,
        decreases names.len() - i,
    {
        copy.push(names[i].clone());
        i += 1;
    }
    assert(ids_of(copy@) =~= ids_of(names@));
    copy
}

/// Whether two lists of identifiers hold the same identifiers in the same order.
pub fn same_ids(a: &Vec<String>, b: &Vec<String>) -> (same: bool)
    ensures
        same == (ids_of(a@) == ids_of(b@)),
{
    if a.len() != b.len() {
        assert(ids_of(a@).len() != ids_of(b@).len());
        return false;
    }
    let mut i: usize = 0;
    while i < a.len()
        invariant
            i <= a.len(),
            a.len() == b.len(),
            forall|j: int| 0 <= j < i ==> a[j]@ == b[j]@,
        decreases a.len() - i,
    {
        if a[i] != b[i] {
            assert(ids_of(a@)[i as int] != ids_of(b@)[i as int]);
            return false;
        }
        i += 1;
    }
    assert(ids_of(a@) =~= ids_of(b@));
    true
}

/// The position of the first element of `names` equal to `id`, if there is one.
pub fn position_of(names: &Vec<String>, id: &str) -> (found: Option<usize>)
    ensures
        match found {
            Some(i) => first_at(ids_of(names@), id@, i as int),
            None => !ids_of(names@).contains(id@),
        },
{
    let mut i: usize = 0;
    while i < names.len()
        invariant
            i <= names.len(),
            forall|j: int| 0 <= j < i ==> ids_of(names@)[j] != id@,
        decreases names.len() - i,
    {
        if same_text(names[i].as_str(), id) {
            return Some(i);
        }
        i += 1;
    }
    assert(!ids_of(names@).contains(id@)) by {
        if ids_of(names@).contains(id@) {
            let k = choose|k: int| 0 <= k < ids_of(names@).len() && ids_of(names@)[k] == id@;
            assert(names[k]@ == id@);
        }
    }
    None
}

/// Takes every element equal to `id` out of `names`.
pub fn remove_id(names: &mut Vec<String>, id: &str)
    ensures
        ids_of(final(names)@) == without(ids_of(old(names)@), id@),
{
    let mut kept: Vec<String> = Vec::new();
    let mut i: usize = 0;
    while i < names.len()
        invariant
            i <= names.len(),
            ids_of(kept@) == without(ids_of(names@).take(i as int), id@),
        decreases names.len() - i,
    {
        proof {
            let all = ids_of(names@);
            assert(all.take(i + 1).drop_last() =~= all.take(i as int));
            assert(all.take(i + 1).last() == names[i as int]@);
        }
        if !same_text(names[i].as_str(), id) {
            kept.push(names[i].clone());
            assert(ids_of(kept@) =~= without(ids_of(names@).take(i as int), id@).push(
                names[i as int]@,
            ));
        }
        i += 1;
    }
    assert(ids_of(names@).take(i as int) =~= ids_of(names@));
    *names = kept;
}

/// Whether no identifier occurs twice in `names`.
pub fn all_distinct(names: &Vec<String>) -> (distinct: bool)
    ensures
        distinct == ids_of(names@).no_duplicates(),
{
    let mut i: usize = 0;
    while i < names.len()
        invariant
            i <= names.len(),
            forall|a: int, b: int| 0 <= a < b < i ==> ids_of(names@)[a] != ids_of(names@)[b],
        decreases names.len() - i,
    {
        let mut j: usize = 0;
        while j < i
            invariant
                j <= i < names.len(),
                forall|a: int| 0 <= a < j ==> ids_of(names@)[a] != ids_of(names@)[i as int],
            decreases i - j,
        {
            if same_text(names[j].as_str(), names[i].as_str()) {
                assert(ids_of(names@)[j as int] == ids_of(names@)[i as int]);
                return false;
            }
            j += 1;
        }
        i += 1;
    }
    assert forall|a: int, b: int|
        0 <= a < ids_of(names@).len() && 0 <= b < ids_of(names@).len() && a != b implies ids_of(
        names@,
    )[a] != ids_of(names@)[b] by {
        if a < b {
        } else {
            assert(ids_of(names@)[b] != ids_of(names@)[a]);
        }
    }
    true
}

/// The characters of `s`, one by one.
pub fn chars_of(s: &str) -> (chars: Vec<char>)
    ensures
        chars@ == s@,
{
    let n = s.unicode_len();
    let mut chars: Vec<char> = Vec::new();
    let mut i: usize = 0;
    while i < n
        invariant
            i <= n,
            n == s@.len(),
            chars@ == s@.take(i as int),
        decreases n - i,
    {
        chars.push(s.get_char(i));
        assert(chars@ =~= s@.take(i + 1));
        i += 1;
    }
    assert(s@.take(n as int) =~= s@);
    chars
}

/// The string made of `chars`.
pub fn string_of(chars: &Vec<char>) -> (s: String)
    ensures
        s@ == chars@,
{
    let mut s = String::new();
    let mut i: usize = 0;
    while i < chars.len()
        invariant
            i <= chars@.len(),
            s@ == chars@.take(i as int),
        decreases chars@.len() - i,
    {
        push_char(&mut s, chars[i]);
        assert(s@ =~= chars@.take(i + 1));
        i += 1;
    }
    assert(chars@.take(i as int) =~= chars@);
    s
}

} // verus!
