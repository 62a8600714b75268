//! Texts: what the library needs to know of strings beyond what they are.

use vstd::prelude::*;
use vstd::std_specs::iter::IteratorSpec;

verus! {

/// The texts of a list of strings.
pub open spec fn names_of(list: Seq<String>) -> Seq<Seq<char>> {
    list.map_values(|s: String| s@)
}

/// Whether `name` occurs in `list`.
pub fn names_contain(list: &Vec<String>, name: &String) -> (r: bool)
    ensures
        r == names_of(list@).contains(name@),
{
    let mut i: usize = 0;
    while i < list.len()
        invariant
            i <= list@.len(),
            forall|k: int| 0 <= k < i ==> names_of(list@)[k] != name@,
        decreases list@.len() - i,
    {
        if list[i] == *name {
            assert(names_of(list@)[i as int] == name@);
            return true;
        }
        i += 1;
    }
    false
}

/// The characters of a string.
pub fn chars_of(s: &str) -> (chars: Vec<char>)
    ensures
        chars@ == s@,
{
    let mut chars: Vec<char> = Vec::new();
    let ghost all = vstd::string::spec_iter(s).remaining();
    for c in it: s.chars()
        invariant
            it.seq() == all,
            chars@.len() == it.index(),
            chars@ == all.take(chars@.len() as int),
    {
        chars.push(c);
    }
    chars
}

/// Whether `text` begins with `prefix`.
pub open spec fn begins_with(text: Seq<char>, prefix: Seq<char>) -> bool {
    prefix.len() <= text.len() && text.take(prefix.len() as int) == prefix
}

/// Whether `text` begins with `prefix`.
pub fn starts_with(text: &Vec<char>, prefix: &Vec<char>) -> (r: bool)
    ensures
        r == begins_with(text@, prefix@),
{
    if prefix.len() > text.len() {
        return false;
    }
    let mut i: usize = 0;
    while i < prefix.len()
        invariant
            i <= prefix@.len() <= text@.len(),
            forall|k: int| 0 <= k < i ==> text@[k] == prefix@[k],
        decreases prefix@.len() - i,
    {
        if text[i] != prefix[i] {
            return false;
        }
        i += 1;
    }
    assert(text@.take(prefix@.len() as int) =~= prefix@);
    true
}

/// Whether `a` comes before `b` in the order of texts: character by
/// character, a proper prefix first.
pub open spec fn text_less(a: Seq<char>, b: Seq<char>) -> bool
    decreases a.len(),
{
    if b.len() == 0 {
        false
    } else if a.len() == 0 {
        true
    } else if a[0] != b[0] {
        a[0] < b[0]
    } else {
        text_less(a.drop_first(), b.drop_first())
    }
}

/// Of two different texts one comes before the other.
pub proof fn lemma_text_less_total(a: Seq<char>, b: Seq<char>)
    ensures
        text_less(a, b) || text_less(b, a) || a == b,
        !(text_less(a, b) && text_less(b, a)),
    decreases a.len(),
{
    if a.len() > 0 && b.len() > 0 {
        if a[0] == b[0] {
            lemma_text_less_total(a.drop_first(), b.drop_first());
            if a.drop_first() == b.drop_first() {
                assert(a =~= seq![a[0]] + a.drop_first());
            }
        }
    }
}

/// The order of texts is transitive.
pub proof fn lemma_text_less_transitive(a: Seq<char>, b: Seq<char>, c: Seq<char>)
    requires
        text_less(a, b),
        text_less(b, c),
    ensures
        text_less(a, c),
    decreases a.len(),
{
    if a.len() > 0 {
        if a[0] == b[0] && b[0] == c[0] {
            lemma_text_less_transitive(a.drop_first(), b.drop_first(), c.drop_first());
        }
    }
}

/// Whether `a` comes before `b` in the order of texts.
pub fn less_text(a: &Vec<char>, b: &Vec<char>) -> (r: bool)
    ensures
        r == text_less(a@, b@),
{
    let mut i: usize = 0;
    proof {
        assert(a@.skip(0) =~= a@ && b@.skip(0) =~= b@);
    }
    while i < a.len() && i < b.len()
        invariant
            i <= a@.len(),
            i <= b@.len(),
            text_less(a@, b@) == text_less(a@.skip(i as int), b@.skip(i as int)),
        decreases a@.len() - i,
    {
        let ghost ra = a@.skip(i as int);
        let ghost rb = b@.skip(i as int);
        proof {
            assert(ra.drop_first() =~= a@.skip(i + 1));
            assert(rb.drop_first() =~= b@.skip(i + 1));
        }
        if a[i] != b[i] {
            return a[i] < b[i];
        }
        i += 1;
    }
    i < b.len()
}

/// Whether texts stand in rising order, none of them twice.
pub open spec fn rising(names: Seq<Seq<char>>) -> bool {
    forall|i: int, j: int| 0 <= i < j < names.len() ==> text_less(names[i], names[j])
}

/// Puts `name` into the rising list `names` at its place, unless it is there
/// already.
pub fn insert_rising(names: &mut Vec<String>, name: String)
    requires
        rising(names_of(old(names)@)),
    ensures
        rising(names_of(final(names)@)),
        forall|t: Seq<char>|
            names_of(final(names)@).contains(t) <==> names_of(old(names)@).contains(t) || t
                == name@,
{
    let chars = chars_of(name.as_str());
    let ghost before = names_of(names@);
    let mut pos: usize = 0;
    while pos < names.len()
        invariant
            pos <= names@.len(),
            names@ == old(names)@,
            before == names_of(names@),
            before.len() == names@.len(),
            chars@ == name@,
            forall|k: int| 0 <= k < pos ==> text_less(#[trigger] before[k], name@),
        ensures
            pos <= names@.len(),
            names@ == old(names)@,
            forall|k: int| 0 <= k < pos ==> text_less(#[trigger] before[k], name@),
            pos < names@.len() ==> !text_less(before[pos as int], name@),
        decreases names@.len() - pos,
    {
        let here = chars_of(names[pos].as_str());
        if !less_text(&here, &chars) {
            break ;
        }
        pos += 1;
    }
    if pos < names.len() && names[pos] == name {
        return ;
    }
    proof {
        if pos < names@.len() {
            lemma_text_less_total(before[pos as int], name@);
            assert forall|j: int| pos < j < before.len() implies text_less(name@, before[j]) by {
                lemma_text_less_transitive(name@, before[pos as int], before[j]);
            }
        }
    }
    names.insert(pos, name);
    proof {
        let after = names_of(names@);
        assert(after =~= before.insert(pos as int, name@));
        assert forall|t: Seq<char>| after.contains(t) <==> before.contains(t) || t == name@ by {
            if before.contains(t) {
                let k = choose|k: int| 0 <= k < before.len() && before[k] == t;
                if k < pos {
                    assert(after[k] == t);
                } else {
                    assert(after[k + 1] == t);
                }
            }
            if t == name@ {
                assert(after[pos as int] == t);
            }
        }
    }
}

} // verus!
