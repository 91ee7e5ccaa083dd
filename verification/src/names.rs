use vstd::prelude::*;

use crate::text::str_starts_with;
use vstd::multiset::Multiset;

verus! {

broadcast use vstd::seq_lib::group_to_multiset_ensures;

/// `a` comes no later than `b` in lexicographic order of code points, the order of Rust's
/// `String` comparison.
pub open spec fn text_le(a: Seq<char>, b: Seq<char>) -> bool
    decreases a.len(),
{
    if a.len() == 0 {
        true
    } else if b.len() == 0 {
        false
    } else if (a[0] as u32) < (b[0] as u32) {
        true
    } else if (a[0] as u32) > (b[0] as u32) {
        false
    } else {
        text_le(a.drop_first(), b.drop_first())
    }
}

/// Any two names are ordered one way or the other.
pub proof fn lemma_text_le_total(a: Seq<char>, b: Seq<char>)
    ensures
        text_le(a, b) || text_le(b, a),
    decreases a.len(),
{
    if a.len() > 0 && b.len() > 0 && a[0] as u32 == b[0] as u32 {
        lemma_text_le_total(a.drop_first(), b.drop_first());
    }
}

/// The order of names is transitive.
pub proof fn lemma_text_le_transitive(a: Seq<char>, b: Seq<char>, c: Seq<char>)
    requires
        text_le(a, b),
        text_le(b, c),
    ensures
        text_le(a, c),
    decreases a.len(),
{
    if a.len() > 0 && b.len() > 0 && c.len() > 0 && a[0] as u32 == b[0] as u32 && b[0] as u32
        == c[0] as u32 {
        lemma_text_le_transitive(a.drop_first(), b.drop_first(), c.drop_first());
    }
}

/// The views of a list of strings.
pub open spec fn views(v: Seq<String>) -> Seq<Seq<char>> {
    v.map_values(|s: String| s@)
}

/// Every earlier text comes no later than every later one.
pub open spec fn sorted_texts(s: Seq<Seq<char>>) -> bool {
    forall|i: int, j: int| 0 <= i < j < s.len() ==> text_le(#[trigger] s[i], #[trigger] s[j])
}

/// Whether `a` comes no later than `b`.
pub fn str_le(a: &str, b: &str) -> (r: bool)
    ensures
        r == text_le(a@, b@),
{
    let n = a.unicode_len();
    let m = b.unicode_len();
    let mut i: usize = 0;
    assert(a@.skip(0) =~= a@);
    assert(b@.skip(0) =~= b@);
    while i < n && i < m
        invariant
            n == a@.len(),
            m == b@.len(),
            i <= n,
            i <= m,
            text_le(a@, b@) == text_le(a@.skip(i as int), b@.skip(i as int)),
        decreases n - i,
    {
        let ca = a.get_char(i);
        let cb = b.get_char(i);
        assert(a@.skip(i as int)[0] == ca);
        assert(b@.skip(i as int)[0] == cb);
        if (ca as u32) < (cb as u32) {
            return true;
        }
        if (ca as u32) > (cb as u32) {
            return false;
        }
        assert(a@.skip(i as int).drop_first() =~= a@.skip(i as int + 1));
        assert(b@.skip(i as int).drop_first() =~= b@.skip(i as int + 1));
        i += 1;
    }
    assert(a@.skip(i as int).len() == n - i);
    assert(b@.skip(i as int).len() == m - i);
    i == n
}

/// The names in `names`, sorted.
pub fn sorted_names(names: Vec<String>) -> (r: Vec<String>)
    ensures
        sorted_texts(views(r@)),
        views(r@).to_multiset() == views(names@).to_multiset(),
{
    broadcast use vstd::multiset::group_multiset_axioms;

    let mut out: Vec<String> = Vec::new();
    let mut rest = names;
    let ghost given = views(rest@);
    proof {
        assert(views(out@) =~= Seq::<Seq<char>>::empty());
        assert(views(out@).to_multiset() =~= Multiset::empty());
        assert(views(out@).to_multiset().add(views(rest@).to_multiset()) =~= given.to_multiset());
    }
    while rest.len() > 0
        invariant
            sorted_texts(views(out@)),
            views(out@).to_multiset().add(views(rest@).to_multiset()) == given.to_multiset(),
        decreases rest.len(),
    {
        let ghost before_rest = views(rest@);
        let ghost before_out = views(out@);
        let name = rest.pop().unwrap();
        let ghost x = name@;
        proof {
            assert(views(rest@) =~= before_rest.drop_last());
            assert(before_rest =~= views(rest@).push(x));
            vstd::seq_lib::to_multiset_build(views(rest@), x);
        }
        insert_sorted(&mut out, name);
        proof {
            assert(views(out@).to_multiset().add(views(rest@).to_multiset()) =~= before_out.to_multiset().add(
                before_rest.to_multiset(),
            ));
        }
    }
    proof {
        assert(views(rest@) =~= Seq::<Seq<char>>::empty());
        assert(views(rest@).to_multiset() =~= Multiset::empty());
        assert(views(out@).to_multiset() =~= given.to_multiset());
    }
    out
}

/// Inserts `name` into the sorted list `out`, after every name that comes no later.
fn insert_sorted(out: &mut Vec<String>, name: String)
    requires
        sorted_texts(views(old(out)@)),
    ensures
        sorted_texts(views(final(out)@)),
        views(final(out)@).to_multiset() == views(old(out)@).to_multiset().insert(name@),
{
    let n = out.len();
    let mut pos: usize = 0;
    while pos < n && str_le(out[pos].as_str(), name.as_str())
        invariant
            n == out@.len(),
            pos <= n,
            forall|j: int| 0 <= j < pos ==> text_le(#[trigger] views(out@)[j], name@),
        decreases n - pos,
    {
        pos += 1;
    }
    let ghost before = views(out@);
    proof {
        if pos < n {
            lemma_text_le_total(before[pos as int], name@);
        }
    }
    let ghost x = name@;
    out.insert(pos, name);
    proof {
        assert(views(out@) =~= before.insert(pos as int, x));
        let after = views(out@);
        assert forall|i: int, j: int| 0 <= i < j < after.len() implies text_le(#[trigger] after[i], #[trigger] after[j]) by {
            if j < pos {
            } else if i < pos && j == pos {
            } else if i < pos && j > pos {
                assert(after[j] == before[j - 1]);
            } else if i == pos {
                assert(after[j] == before[j - 1]);
                assert(text_le(x, before[pos as int]));
                if j - 1 > pos {
                    lemma_text_le_transitive(x, before[pos as int], before[j - 1]);
                }
            } else {
                assert(after[i] == before[i - 1]);
                assert(after[j] == before[j - 1]);
            }
        }
    }
}

/// The texts of `keys` that begin with `prefix`, with the prefix taken off, in key order.
pub open spec fn stripped(keys: Seq<Seq<char>>, prefix: Seq<char>) -> Seq<Seq<char>>
    decreases keys.len(),
{
    if keys.len() == 0 {
        Seq::empty()
    } else {
        let last = keys.last();
        let rest = stripped(keys.drop_last(), prefix);
        if prefix.len() <= last.len() && last.subrange(0, prefix.len() as int) == prefix {
            rest.push(last.subrange(prefix.len() as int, last.len() as int))
        } else {
            rest
        }
    }
}

/// The names under `prefix`: each key that begins with it, without it, sorted.
pub fn names_under_prefix(keys: &Vec<String>, prefix: &str) -> (r: Vec<String>)
    ensures
        sorted_texts(views(r@)),
        views(r@).to_multiset() == stripped(views(keys@), prefix@).to_multiset(),
{
    let plen = prefix.unicode_len();
    let n = keys.len();
    let mut names: Vec<String> = Vec::new();
    let mut i: usize = 0;
    while i < n
        invariant
            n == keys@.len(),
            plen == prefix@.len(),
            i <= n,
            views(names@) == stripped(views(keys@).take(i as int), prefix@),
        decreases n - i,
    {
        let key = keys[i].as_str();
        proof {
            assert(views(keys@).take(i as int + 1).drop_last() =~= views(keys@).take(i as int));
            assert(views(keys@).take(i as int + 1).last() == key@);
        }
        if str_starts_with(key, prefix) {
            let len = key.unicode_len();
            let name = key.substring_char(plen, len).to_owned();
            let ghost before = views(names@);
            names.push(name);
            assert(views(names@) =~= before.push(name@));
        }
        i += 1;
    }
    assert(views(keys@).take(n as int) =~= views(keys@));
    sorted_names(names)
}

} // verus!
