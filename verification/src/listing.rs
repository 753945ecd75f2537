//! Directory listing: hidden-entry filtering, the listing sort order
//! (directories first, then case-insensitive name order), and the totals of
//! a directory read.
use vstd::prelude::*;
use vstd::string::StrSliceExecFns;

use crate::entry::{entry_wf, FileEntry};
use crate::text::{lower_of, lower_str};

verus! {

broadcast use vstd::seq_lib::group_to_multiset_ensures;

/// What a directory read returns.
#[derive(Debug)]
pub struct DirectoryContents {
    pub path: String,
    pub parent: Option<String>,
    pub entries: Vec<FileEntry>,
    pub total_items: usize,
    pub total_size: u64,
}

/// The sort key of an entry: the UTF-8 bytes of its lowercased name, which
/// is the order `String` comparison of lowercased names gives.
pub open spec fn sort_key(e: FileEntry) -> Seq<u8> {
    vstd::utf8::encode_utf8(lower_of(e.name@))
}

/// Lexicographic order on byte strings.
pub open spec fn bytes_le(a: Seq<u8>, b: Seq<u8>) -> bool
    decreases a.len(),
{
    if a.len() == 0 {
        true
    } else if b.len() == 0 {
        false
    } else if a.first() < b.first() {
        true
    } else if a.first() > b.first() {
        false
    } else {
        bytes_le(a.drop_first(), b.drop_first())
    }
}

/// The listing order: directories before files; within a class, by
/// lowercased name.
pub open spec fn entry_le(a: FileEntry, b: FileEntry) -> bool {
    (a.is_dir && !b.is_dir) || (a.is_dir == b.is_dir && bytes_le(sort_key(a), sort_key(b)))
}

/// A sequence ordered by the listing order, every pair.
pub open spec fn sorted_entries(s: Seq<FileEntry>) -> bool {
    forall|i: int, j: int| 0 <= i < j < s.len() ==> entry_le(s[i], s[j])
}

/// An entry survives the hidden filter when hidden entries are shown or it
/// is not hidden.
pub open spec fn visible(e: FileEntry, show_hidden: bool) -> bool {
    show_hidden || !e.hidden
}

/// The entries that the hidden filter keeps, in their incoming order.
pub open spec fn filter_visible(s: Seq<FileEntry>, show_hidden: bool) -> Seq<FileEntry> {
    s.filter(|e: FileEntry| visible(e, show_hidden))
}

/// What the filter keeps was among the entries given to it.
proof fn lemma_visible_member(s: Seq<FileEntry>, show_hidden: bool, i: int)
    requires
        0 <= i < filter_visible(s, show_hidden).len(),
    ensures
        s.contains(filter_visible(s, show_hidden)[i]),
    decreases s.len(),
{
    reveal(Seq::filter);
    if s.len() == 0 {
    } else {
        let f = filter_visible(s, show_hidden);
        let fd = filter_visible(s.drop_last(), show_hidden);
        if visible(s.last(), show_hidden) {
            assert(f == fd.push(s.last()));
            if i < f.len() - 1 {
                lemma_visible_member(s.drop_last(), show_hidden, i);
                let j = choose|j: int| 0 <= j < s.drop_last().len() && s.drop_last()[j] == fd[i];
                assert(s[j] == f[i]);
            } else {
                assert(s[s.len() - 1] == f[i]);
            }
        } else {
            assert(f == fd);
            lemma_visible_member(s.drop_last(), show_hidden, i);
            let j = choose|j: int| 0 <= j < s.drop_last().len() && s.drop_last()[j] == fd[i];
            assert(s[j] == f[i]);
        }
    }
}

pub proof fn lemma_bytes_le_total(a: Seq<u8>, b: Seq<u8>)
    ensures
        bytes_le(a, b) || bytes_le(b, a),
    decreases a.len(),
{
    if a.len() == 0 || b.len() == 0 {
    } else if a.first() == b.first() {
        lemma_bytes_le_total(a.drop_first(), b.drop_first());
    }
}

pub proof fn lemma_bytes_le_trans(a: Seq<u8>, b: Seq<u8>, c: Seq<u8>)
    requires
        bytes_le(a, b),
        bytes_le(b, c),
    ensures
        bytes_le(a, c),
    decreases a.len(),
{
    if a.len() == 0 || b.len() == 0 || c.len() == 0 {
    } else if a.first() == b.first() && b.first() == c.first() {
        lemma_bytes_le_trans(a.drop_first(), b.drop_first(), c.drop_first());
    }
}

pub proof fn lemma_entry_le_total(a: FileEntry, b: FileEntry)
    ensures
        entry_le(a, b) || entry_le(b, a),
{
    lemma_bytes_le_total(sort_key(a), sort_key(b));
}

pub proof fn lemma_entry_le_trans(a: FileEntry, b: FileEntry, c: FileEntry)
    requires
        entry_le(a, b),
        entry_le(b, c),
    ensures
        entry_le(a, c),
{
    if a.is_dir == b.is_dir && b.is_dir == c.is_dir {
        lemma_bytes_le_trans(sort_key(a), sort_key(b), sort_key(c));
    }
}

/// Lexicographic comparison of two byte vectors.
fn lex_le(a: &Vec<u8>, b: &Vec<u8>) -> (r: bool)
    ensures
        r == bytes_le(a@, b@),
{
    let na = a.len();
    let nb = b.len();
    let mut i: usize = 0;
    proof {
        assert(a@.skip(0) =~= a@);
        assert(b@.skip(0) =~= b@);
    }
    while i < na && i < nb && a[i] == b[i]
        invariant
            na == a@.len(),
            nb == b@.len(),
            i <= na,
            i <= nb,
            bytes_le(a@, b@) == bytes_le(a@.skip(i as int), b@.skip(i as int)),
        decreases na - i,
    {
        proof {
            let sa = a@.skip(i as int);
            let sb = b@.skip(i as int);
            assert(sa.first() == a@[i as int]);
            assert(sb.first() == b@[i as int]);
            assert(sa.drop_first() =~= a@.skip(i + 1));
            assert(sb.drop_first() =~= b@.skip(i + 1));
        }
        i = i + 1;
    }
    proof {
        let sa = a@.skip(i as int);
        let sb = b@.skip(i as int);
        if i < na {
            assert(sa.first() == a@[i as int]);
        }
        if i < nb {
            assert(sb.first() == b@[i as int]);
        }
    }
    if i >= na {
        true
    } else if i >= nb {
        false
    } else {
        a[i] < b[i]
    }
}

/// Decide the listing order between two entries, lowercasing their names as
/// the order requires.
fn entry_le_exec(a: &FileEntry, b: &FileEntry) -> (r: bool)
    ensures
        r == entry_le(*a, *b),
{
    if a.is_dir && !b.is_dir {
        true
    } else if b.is_dir && !a.is_dir {
        false
    } else {
        let ka = lower_str(a.name.as_str());
        let kb = lower_str(b.name.as_str());
        let ba = ka.as_str().as_bytes_vec();
        let bb = kb.as_str().as_bytes_vec();
        lex_le(&ba, &bb)
    }
}

/// Sort entries into the listing order, keeping exactly the same entries.
pub fn sort_entries(v: &mut Vec<FileEntry>)
    ensures
        final(v)@.to_multiset() == old(v)@.to_multiset(),
        final(v)@.len() == old(v)@.len(),
        sorted_entries(final(v)@),
{
    if v.len() <= 1 {
        return ;
    }
    let ghost orig = v@;
    let mut i: usize = 1;
    while i < v.len()
        invariant
            1 <= i,
            i <= v@.len(),
            v@.len() == orig.len(),
            v@.to_multiset() == orig.to_multiset(),
            sorted_entries(v@.take(i as int)),
        decreases v@.len() - i,
    {
        let ghost pre = v@;
        let x = v.remove(i);
        let ghost mid = v@;
        proof {
            assert(mid =~= pre.remove(i as int));
            assert(forall|k: int| 0 <= k < i ==> mid[k] == pre[k]);
        }
        let mut j: usize = i;
        loop
            invariant
                j <= i,
                i < pre.len(),
                v@ == mid,
                mid.len() == pre.len() - 1,
                forall|k: int| #![trigger mid[k]] j <= k < i ==> entry_le(x, mid[k]),
            ensures
                j <= i,
                v@ == mid,
                forall|k: int| #![trigger mid[k]] j <= k < i ==> entry_le(x, mid[k]),
                j == 0 || entry_le(mid[j - 1], x),
            decreases j,
        {
            if j == 0 {
                break ;
            }
            if entry_le_exec(&v[j - 1], &x) {
                break ;
            }
            proof {
                lemma_entry_le_total(mid[j - 1], x);
            }
            j = j - 1;
        }
        v.insert(j, x);
        let ghost post = v@;
        proof {
            assert(post == mid.insert(j as int, x));
            // the multiset is restored: the removed entry went back in
            assert(pre.contains(pre[i as int])) by {
                assert(pre[i as int] == pre[i as int]);
            }
            assert(pre.to_multiset().count(x) > 0);
            assert(post.to_multiset() =~= pre.to_multiset());
            // the grown prefix is ordered
            assert forall|k1: int, k2: int| 0 <= k1 < k2 < i + 1 implies entry_le(
                post[k1],
                post[k2],
            ) by {
                if k2 < j {
                    assert(post[k1] == mid[k1] && post[k2] == mid[k2]);
                } else if k2 == j {
                    assert(post[k2] == x);
                    assert(post[k1] == mid[k1]);
                    assert(entry_le(mid[j - 1], x));
                    if k1 < j - 1 {
                        assert(entry_le(mid[k1], mid[j - 1]));
                        lemma_entry_le_trans(mid[k1], mid[j - 1], x);
                    }
                } else {
                    assert(post[k2] == mid[k2 - 1]);
                    assert(entry_le(x, mid[k2 - 1]));
                    if k1 < j {
                        assert(post[k1] == mid[k1]);
                        if j > 0 {
                            assert(entry_le(mid[j - 1], x));
                            if k1 < j - 1 {
                                assert(entry_le(mid[k1], mid[j - 1]));
                                lemma_entry_le_trans(mid[k1], mid[j - 1], x);
                            }
                            lemma_entry_le_trans(mid[k1], x, mid[k2 - 1]);
                        }
                    } else if k1 == j {
                        assert(post[k1] == x);
                    } else {
                        assert(post[k1] == mid[k1 - 1]);
                    }
                }
            }
        }
        i = i + 1;
    }
    proof {
        if v@.len() > 0 {
            assert(v@.take(v@.len() as int) =~= v@);
        }
    }
}

/// The sum of the sizes of the listed entries, as an unbounded integer.
pub open spec fn sum_sizes(s: Seq<FileEntry>) -> int
    decreases s.len(),
{
    if s.len() == 0 {
        0
    } else {
        sum_sizes(s.drop_last()) + s.last().size
    }
}

/// Saturation at the top of the `u64` range.
pub open spec fn clamp_u64(x: int) -> int {
    if x > u64::MAX {
        u64::MAX as int
    } else {
        x
    }
}

/// Assemble the result of a directory read from the entries of the
/// directory: drop hidden entries unless they are to be shown, sort what
/// remains into the listing order, and total the items and their sizes
/// (saturating at the top of the range).
pub fn build_directory_contents(
    path: String,
    parent: Option<String>,
    raw: Vec<FileEntry>,
    show_hidden: bool,
) -> (r: DirectoryContents)
    ensures
        r.path == path,
        r.parent == parent,
        r.entries@.to_multiset() == filter_visible(raw@, show_hidden).to_multiset(),
        sorted_entries(r.entries@),
        r.total_items == r.entries@.len(),
        r.total_size == clamp_u64(sum_sizes(r.entries@)),
        (forall|i: int| 0 <= i < raw@.len() ==> entry_wf(#[trigger] raw@[i])) ==> (forall|i: int|
            0 <= i < r.entries@.len() ==> entry_wf(#[trigger] r.entries@[i])),
{
    let mut kept: Vec<FileEntry> = Vec::new();
    let n = raw.len();
    let mut i: usize = 0;
    proof {
        reveal(Seq::filter);
        assert(raw@.take(0) =~= Seq::<FileEntry>::empty());
        assert(filter_visible(raw@.take(0), show_hidden) =~= Seq::<FileEntry>::empty());
    }
    while i < n
        invariant
            n == raw@.len(),
            i <= n,
            kept@ == filter_visible(raw@.take(i as int), show_hidden),
        decreases n - i,
    {
        let e = &raw[i];
        let ghost prefix = raw@.take(i as int);
        if show_hidden || !e.hidden {
            kept.push(e.clone());
        }
        proof {
            reveal(Seq::filter);
            assert(raw@.take(i + 1) =~= prefix.push(raw@[i as int]));
            assert(prefix.push(raw@[i as int]).drop_last() =~= prefix);
            assert(prefix.push(raw@[i as int]).last() == raw@[i as int]);
        }
        i = i + 1;
    }
    proof {
        assert(raw@.take(n as int) =~= raw@);
    }
    let mut entries = kept;
    sort_entries(&mut entries);
    let total_items = entries.len();
    let mut total_size: u64 = 0;
    let mut k: usize = 0;
    while k < total_items
        invariant
            total_items == entries@.len(),
            k <= total_items,
            total_size as int == clamp_u64(sum_sizes(entries@.take(k as int))),
        decreases total_items - k,
    {
        let sz = entries[k].size;
        proof {
            assert(entries@.take(k + 1).drop_last() =~= entries@.take(k as int));
            assert(entries@.take(k + 1).last() == entries@[k as int]);
        }
        if sz > u64::MAX - total_size {
            total_size = u64::MAX;
        } else {
            total_size = total_size + sz;
        }
        k = k + 1;
    }
    proof {
        assert(entries@.take(total_items as int) =~= entries@);
        if forall|i: int| 0 <= i < raw@.len() ==> entry_wf(#[trigger] raw@[i]) {
            assert forall|i: int| 0 <= i < entries@.len() implies entry_wf(
                #[trigger] entries@[i],
            ) by {
                let x = entries@[i];
                let fs = filter_visible(raw@, show_hidden);
                assert(entries@.contains(x));
                assert(entries@.to_multiset().count(x) > 0);
                assert(fs.to_multiset().count(x) > 0);
                assert(fs.contains(x));
                let j = choose|j: int| 0 <= j < fs.len() && fs[j] == x;
                lemma_visible_member(raw@, show_hidden, j);
                let k = choose|k: int| 0 <= k < raw@.len() && raw@[k] == x;
                assert(entry_wf(raw@[k]));
            }
        }
    }
    DirectoryContents { path, parent, entries, total_items, total_size }
}

} // verus!
