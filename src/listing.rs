use vstd::prelude::*;
use crate::types::{FileMeta, FileType};

verus! {

/// `a` comes no later than `b` in lexicographic order of characters.
pub open spec fn name_le(a: Seq<char>, b: Seq<char>) -> bool
    decreases a.len(),
{
    if a.len() == 0 {
        true
    } else if b.len() == 0 {
        false
    } else if (a[0] as u32) != (b[0] as u32) {
        (a[0] as u32) < (b[0] as u32)
    } else {
        name_le(a.drop_first(), b.drop_first())
    }
}

/// Where `m` goes in `sorted`: after every entry whose name is not greater.
pub open spec fn insert_pos(m: FileMeta, sorted: Seq<FileMeta>) -> int
    decreases sorted.len(),
{
    if sorted.len() == 0 {
        0
    } else if name_le(sorted.last().name@, m.name@) {
        sorted.len() as int
    } else {
        insert_pos(m, sorted.drop_last())
    }
}

/// The entries ordered by name; entries of equal name keep their order.
pub open spec fn sort_by_name(s: Seq<FileMeta>) -> Seq<FileMeta>
    decreases s.len(),
{
    if s.len() == 0 {
        s
    } else {
        let rest = sort_by_name(s.drop_last());
        rest.insert(insert_pos(s.last(), rest), s.last())
    }
}

/// The entries of `s` of which `dirs` says whether they are directories.
pub open spec fn of_kind(s: Seq<FileMeta>, dirs: bool) -> Seq<FileMeta>
    decreases s.len(),
{
    if s.len() == 0 {
        s
    } else if (s.last().file_type == FileType::Dir) == dirs {
        of_kind(s.drop_last(), dirs).push(s.last())
    } else {
        of_kind(s.drop_last(), dirs)
    }
}

/// A listing as reported: the directories by name, then the other entries by name.
pub open spec fn listing(s: Seq<FileMeta>) -> Seq<FileMeta> {
    sort_by_name(of_kind(s, true)) + sort_by_name(of_kind(s, false))
}

proof fn lemma_name_le_skip(a: Seq<char>, b: Seq<char>, i: int)
    requires
        0 <= i < a.len(),
        i < b.len(),
        (a[i] as u32) == (b[i] as u32),
    ensures
        name_le(a.skip(i), b.skip(i)) == name_le(a.skip(i + 1), b.skip(i + 1)),
{
    assert(a.skip(i).drop_first() =~= a.skip(i + 1));
    assert(b.skip(i).drop_first() =~= b.skip(i + 1));
}

/// Compares two names in lexicographic order of characters.
fn name_le_exec(a: &str, b: &str) -> (r: bool)
    ensures
        r == name_le(a@, b@),
{
    let na = a.unicode_len();
    let nb = b.unicode_len();
    let mut i: usize = 0;
    assert(a@.skip(0) =~= a@);
    assert(b@.skip(0) =~= b@);
    while i < na && i < nb
        invariant
            na == a@.len(),
            nb == b@.len(),
            i <= na,
            i <= nb,
            name_le(a@, b@) == name_le(a@.skip(i as int), b@.skip(i as int)),
        decreases na - i,
    {
        let ca = a.get_char(i) as u32;
        let cb = b.get_char(i) as u32;
        if ca != cb {
            return ca < cb;
        }
        proof {
            lemma_name_le_skip(a@, b@, i as int);
        }
        i = i + 1;
    }
    i == na
}

/// Puts `m` into `sorted` at its place by name.
fn insert_by_name(sorted: &mut Vec<FileMeta>, m: FileMeta)
    ensures
        final(sorted)@ == old(sorted)@.insert(insert_pos(m, old(sorted)@), m),
{
    let mut j: usize = sorted.len();
    assert(sorted@.take(j as int) =~= sorted@);
    while j > 0 && !name_le_exec(sorted[j - 1].name.as_str(), m.name.as_str())
        invariant
            j <= sorted@.len(),
            insert_pos(m, sorted@) == insert_pos(m, sorted@.take(j as int)),
        decreases j,
    {
        assert(sorted@.take(j as int).drop_last() =~= sorted@.take(j - 1));
        j = j - 1;
    }
    proof {
        if j > 0 {
            assert(sorted@.take(j as int).last() == sorted@[j - 1]);
        }
    }
    sorted.insert(j, m);
}

/// Orders the entries of a directory for its listing: the directories
/// sorted by name, then the other entries sorted by name.
pub fn list_meta(entries: Vec<FileMeta>) -> (r: Vec<FileMeta>)
    ensures
        r@ == listing(entries@),
{
    let ghost all = entries@;
    let mut dirs: Vec<FileMeta> = Vec::new();
    let mut files: Vec<FileMeta> = Vec::new();
    for m in it: entries
        invariant
            it.seq() == all,
            dirs@ == sort_by_name(of_kind(all.take(it.index() as int), true)),
            files@ == sort_by_name(of_kind(all.take(it.index() as int), false)),
    {
        let ghost i = it.index() as int;
        proof {
            assert(m == all[i]);
            assert(all.take(i + 1).drop_last() =~= all.take(i));
            assert(all.take(i + 1).last() == all[i]);
        }
        let ghost d = of_kind(all.take(i), true);
        let ghost f = of_kind(all.take(i), false);
        if m.file_type == FileType::Dir {
            assert(d.push(m).drop_last() =~= d);
            insert_by_name(&mut dirs, m);
        } else {
            assert(f.push(m).drop_last() =~= f);
            insert_by_name(&mut files, m);
        }
    }
    assert(all.take(all.len() as int) =~= all);
    dirs.append(&mut files);
    dirs
}

proof fn lemma_name_le_total(a: Seq<char>, b: Seq<char>)
    ensures
        name_le(a, b) || name_le(b, a),
    decreases a.len(),
{
    if a.len() > 0 && b.len() > 0 && (a[0] as u32) == (b[0] as u32) {
        lemma_name_le_total(a.drop_first(), b.drop_first());
    }
}

proof fn lemma_name_le_transitive(a: Seq<char>, b: Seq<char>, c: Seq<char>)
    requires
        name_le(a, b),
        name_le(b, c),
    ensures
        name_le(a, c),
    decreases a.len(),
{
    if a.len() > 0 && b.len() > 0 && c.len() > 0 && (a[0] as u32) == (b[0] as u32) && (b[0] as u32) == (
    c[0] as u32) {
        lemma_name_le_transitive(a.drop_first(), b.drop_first(), c.drop_first());
    }
}

/// Names never decrease along `t`.
pub open spec fn sorted_by_name(t: Seq<FileMeta>) -> bool {
    forall|i: int, j: int| 0 <= i < j < t.len() ==> name_le(#[trigger] t[i].name@, #[trigger] t[j].name@)
}

proof fn lemma_insert_pos(m: FileMeta, t: Seq<FileMeta>)
    ensures
        0 <= insert_pos(m, t) <= t.len(),
        forall|i: int| insert_pos(m, t) <= i < t.len() ==> !name_le(#[trigger] t[i].name@, m.name@),
        insert_pos(m, t) > 0 ==> name_le(t[insert_pos(m, t) - 1].name@, m.name@),
    decreases t.len(),
{
    if t.len() > 0 && !name_le(t.last().name@, m.name@) {
        let rest = t.drop_last();
        lemma_insert_pos(m, rest);
        assert forall|i: int| insert_pos(m, t) <= i < t.len() implies !name_le(#[trigger] t[i].name@, m.name@) by {
            if i < rest.len() {
                assert(rest[i] == t[i]);
            }
        }
    }
}

proof fn lemma_sort_by_name(s: Seq<FileMeta>)
    ensures
        sorted_by_name(sort_by_name(s)),
        sort_by_name(s).to_multiset() == s.to_multiset(),
    decreases s.len(),
{
    broadcast use vstd::seq_lib::to_multiset_insert, vstd::seq_lib::to_multiset_build;
    if s.len() > 0 {
        let t = sort_by_name(s.drop_last());
        lemma_sort_by_name(s.drop_last());
        let m = s.last();
        let p = insert_pos(m, t);
        lemma_insert_pos(m, t);
        let r = t.insert(p, m);
        assert(s.drop_last().push(m) =~= s);
        assert forall|i: int, j: int| 0 <= i < j < r.len() implies name_le(#[trigger] r[i].name@, #[trigger] r[j].name@) by {
            if j < p {
                assert(r[i] == t[i] && r[j] == t[j]);
            } else if j == p {
                assert(r[i] == t[i]);
                if i < p - 1 {
                    lemma_name_le_transitive(t[i].name@, t[p - 1].name@, m.name@);
                }
            } else if i == p {
                assert(r[j] == t[j - 1]);
                lemma_name_le_total(t[j - 1].name@, m.name@);
            } else if i < p {
                assert(r[i] == t[i] && r[j] == t[j - 1]);
            } else {
                assert(r[i] == t[i - 1] && r[j] == t[j - 1]);
            }
        }
    }
}

proof fn lemma_of_kind(s: Seq<FileMeta>, dirs: bool)
    ensures
        forall|x: FileMeta| of_kind(s, dirs).contains(x) ==> (x.file_type == FileType::Dir) == dirs,
        of_kind(s, true).to_multiset().add(of_kind(s, false).to_multiset()) == s.to_multiset(),
    decreases s.len(),
{
    broadcast use vstd::seq_lib::to_multiset_build;
    if s.len() > 0 {
        let rest = s.drop_last();
        lemma_of_kind(rest, dirs);
        assert(rest.push(s.last()) =~= s);
        let k = of_kind(rest, dirs);
        assert forall|x: FileMeta| of_kind(s, dirs).contains(x) implies (x.file_type == FileType::Dir) == dirs by {
            if !k.contains(x) {
                let i = choose|i: int| 0 <= i < of_kind(s, dirs).len() && of_kind(s, dirs)[i] == x;
                assert(i == k.len());
            } 
        }
        assert(of_kind(s, true).to_multiset().add(of_kind(s, false).to_multiset()) =~= s.to_multiset());
    } else {
        broadcast use vstd::seq_lib::to_multiset_len, vstd::multiset::lemma_multiset_empty_len;
        assert(s.to_multiset().len() == 0);
        assert(s.to_multiset().add(s.to_multiset()) =~= s.to_multiset());
    }
}

/// A listing holds every entry once; it puts the directories before the
/// other entries, and the entries of each kind in order of name.
pub proof fn listing_is_ordered(s: Seq<FileMeta>)
    ensures
        listing(s).to_multiset() == s.to_multiset(),
        forall|i: int, j: int|
            0 <= i < j < listing(s).len() && #[trigger] listing(s)[j].file_type == FileType::Dir
                ==> #[trigger] listing(s)[i].file_type == FileType::Dir,
        forall|i: int, j: int|
            0 <= i < j < listing(s).len() && #[trigger] listing(s)[i].file_type == #[trigger] listing(
                s,
            )[j].file_type ==> name_le(listing(s)[i].name@, listing(s)[j].name@),
{
    broadcast use vstd::seq_lib::lemma_multiset_commutative, vstd::seq_lib::to_multiset_contains;
    let d = sort_by_name(of_kind(s, true));
    let f = sort_by_name(of_kind(s, false));
    lemma_sort_by_name(of_kind(s, true));
    lemma_sort_by_name(of_kind(s, false));
    lemma_of_kind(s, true);
    lemma_of_kind(s, false);
    let l = listing(s);
    assert forall|x: FileMeta| d.contains(x) implies x.file_type == FileType::Dir by {
        assert(d.to_multiset().count(x) > 0);
        assert(of_kind(s, true).contains(x));
    }
    assert forall|x: FileMeta| f.contains(x) implies x.file_type != FileType::Dir by {
        assert(f.to_multiset().count(x) > 0);
        assert(of_kind(s, false).contains(x));
    }
    assert forall|i: int| 0 <= i < l.len() implies (#[trigger] l[i].file_type == FileType::Dir) == (i < d.len()) by {
        if i < d.len() {
            assert(l[i] == d[i]);
            assert(d.contains(d[i]));
        } else {
            assert(l[i] == f[i - d.len()]);
            assert(f.contains(f[i - d.len()]));
        }
    }
    assert forall|i: int, j: int|
        0 <= i < j < l.len() && #[trigger] l[i].file_type == #[trigger] l[j].file_type
        implies name_le(l[i].name@, l[j].name@) by {
        if j < d.len() {
            assert(l[i] == d[i] && l[j] == d[j]);
        } else if i >= d.len() {
            assert(l[i] == f[i - d.len()] && l[j] == f[j - d.len()]);
        } else {
            assert((l[i].file_type == FileType::Dir) == (i < d.len()));
            assert((l[j].file_type == FileType::Dir) == (j < d.len()));
        }
    }
}

} // verus!
