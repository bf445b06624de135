use vstd::prelude::*;
use vstd::string::*;
use crate::model::FileItem;

verus! {

/// Lexicographic order on texts, character by character, a prefix first.
pub open spec fn text_le(a: Seq<char>, b: Seq<char>) -> bool
    decreases a.len(),
{
    if a.len() == 0 {
        true
    } else if b.len() == 0 {
        false
    } else if a[0] != b[0] {
        a[0] < b[0]
    } else {
        text_le(a.drop_first(), b.drop_first())
    }
}

/// Of two texts, one is ordered no later than the other.
pub proof fn lemma_text_le_total(a: Seq<char>, b: Seq<char>)
    ensures
        text_le(a, b) || text_le(b, a),
    decreases a.len(),
{
    if a.len() > 0 && b.len() > 0 && a[0] == b[0] {
        lemma_text_le_total(a.drop_first(), b.drop_first());
    }
}

/// The order of texts is transitive.
pub proof fn lemma_text_le_transitive(a: Seq<char>, b: Seq<char>, c: Seq<char>)
    requires
        text_le(a, b),
        text_le(b, c),
    ensures
        text_le(a, c),
    decreases a.len(),
{
    if a.len() > 0 && b.len() > 0 && c.len() > 0 && a[0] == b[0] && b[0] == c[0] {
        lemma_text_le_transitive(a.drop_first(), b.drop_first(), c.drop_first());
    }
}

/// Compares two texts in the order of `text_le`.
pub fn text_le_exec(a: &str, b: &str) -> (r: bool)
    ensures
        r == text_le(a@, b@),
{
    let n = a.unicode_len();
    let m = b.unicode_len();
    let mut i: usize = 0;
    assert(a@.subrange(0, n as int) =~= a@);
    assert(b@.subrange(0, m as int) =~= b@);
    loop
        invariant
            n == a@.len(),
            m == b@.len(),
            i <= n,
            i <= m,
            text_le(a@, b@) == text_le(a@.subrange(i as int, n as int), b@.subrange(i as int, m as int)),
        decreases n - i,
    {
        let ghost sa = a@.subrange(i as int, n as int);
        let ghost sb = b@.subrange(i as int, m as int);
        if i == n {
            return true;
        }
        if i == m {
            return false;
        }
        let x = a.get_char(i);
        let y = b.get_char(i);
        assert(sa[0] == x && sb[0] == y);
        if x != y {
            return x < y;
        }
        assert(sa.drop_first() =~= a@.subrange(i as int + 1, n as int));
        assert(sb.drop_first() =~= b@.subrange(i as int + 1, m as int));
        i = i + 1;
    }
}

/// The lower-case form of a text, as Unicode defines it.
pub uninterp spec fn lower_of(s: Seq<char>) -> Seq<char>;

/// Relies on `str::to_lowercase`: the result depends on the characters alone.
#[verifier::external_body]
fn lowercase(s: &str) -> (r: String)
    ensures
        r@ == lower_of(s@),
{
    s.to_lowercase()
}

/// The place of an item in an order: a group, then a text.
pub open spec fn sort_key(it: FileItem, by_path: bool) -> (u8, Seq<char>) {
    if by_path {
        (0, it.path@)
    } else {
        (if it.is_dir { 0 } else { 1 }, lower_of(it.name@))
    }
}

pub open spec fn key_le(a: (u8, Seq<char>), b: (u8, Seq<char>)) -> bool {
    a.0 < b.0 || (a.0 == b.0 && text_le(a.1, b.1))
}

/// Directories before files, and within each, names in case-insensitive order.
pub open spec fn local_le(a: FileItem, b: FileItem) -> bool {
    key_le(sort_key(a, false), sort_key(b, false))
}

/// Paths in order.
pub open spec fn path_le(a: FileItem, b: FileItem) -> bool {
    key_le(sort_key(a, true), sort_key(b, true))
}

/// Each item of `s` is ordered no later than the next one.
pub open spec fn sorted_by_key(s: Seq<FileItem>, by_path: bool) -> bool {
    forall|i: int| 0 <= i < s.len() - 1 ==> key_le(sort_key(#[trigger] s[i], by_path), sort_key(s[i + 1], by_path))
}

proof fn lemma_sorted_pair(s: Seq<FileItem>, by_path: bool, i: int, j: int)
    requires
        sorted_by_key(s, by_path),
        0 <= i < j < s.len(),
    ensures
        key_le(sort_key(s[i], by_path), sort_key(s[j], by_path)),
    decreases j - i,
{
    if j > i + 1 {
        lemma_sorted_pair(s, by_path, i + 1, j);
        let (a, b, c) = (sort_key(s[i], by_path), sort_key(s[i + 1], by_path), sort_key(s[j], by_path));
        assert(key_le(a, b));
        if a.0 == b.0 && b.0 == c.0 {
            lemma_text_le_transitive(a.1, b.1, c.1);
        }
    }
}

/// Of an order stated between neighbours, any two items are in order.
proof fn lemma_sorted_pairwise(s: Seq<FileItem>, by_path: bool)
    requires
        sorted_by_key(s, by_path),
    ensures
        forall|i: int, j: int|
            0 <= i < j < s.len() ==> key_le(sort_key(#[trigger] s[i], by_path), sort_key(#[trigger] s[j], by_path)),
{
    assert forall|i: int, j: int| 0 <= i < j < s.len() implies key_le(
        sort_key(#[trigger] s[i], by_path),
        sort_key(#[trigger] s[j], by_path),
    ) by {
        lemma_sorted_pair(s, by_path, i, j);
    }
}

proof fn lemma_insert_multiset(s: Seq<FileItem>, p: int, x: FileItem)
    requires
        0 <= p <= s.len(),
    ensures
        s.insert(p, x).to_multiset() =~= s.to_multiset().insert(x),
{
    broadcast use vstd::seq_lib::group_to_multiset_ensures;
    let t = s.insert(p, x);
    assert(t.remove(p) =~= s);
    assert(t.contains(x)) by {
        assert(t[p] == x);
    }
}

fn key_of(it: &FileItem, by_path: bool) -> (r: (u8, String))
    ensures
        r.0 == sort_key(*it, by_path).0,
        r.1@ == sort_key(*it, by_path).1,
{
    if by_path {
        (0, it.path.clone())
    } else {
        (if it.is_dir { 0 } else { 1 }, lowercase(it.name.as_str()))
    }
}

/// The items in order of `sort_key`; the same items, none lost or added.
fn sort_items(items: Vec<FileItem>, by_path: bool) -> (r: Vec<FileItem>)
    ensures
        r@.to_multiset() == items@.to_multiset(),
        sorted_by_key(r@, by_path),
{
    broadcast use vstd::seq_lib::group_to_multiset_ensures;
    let ghost orig = items@;
    let mut rest = items;
    let mut out: Vec<FileItem> = Vec::new();
    let mut keys: Vec<(u8, String)> = Vec::new();
    assert(orig.subrange(0, orig.len() as int) =~= orig);
    while rest.len() > 0
        invariant
            out@.len() == keys@.len(),
            out@.len() + rest@.len() == orig.len(),
            rest@ == orig.subrange(orig.len() - rest@.len(), orig.len() as int),
            out@.to_multiset().add(rest@.to_multiset()) == orig.to_multiset(),
            forall|k: int| 0 <= k < keys@.len() ==> (#[trigger] keys@[k]).0 == sort_key(out@[k], by_path).0
                && keys@[k].1@ == sort_key(out@[k], by_path).1,
            sorted_by_key(out@, by_path),
        decreases rest@.len(),
    {
        let ghost rest0 = rest@;
        let x = rest.remove(0);
        assert(rest@ =~= orig.subrange(orig.len() - rest@.len(), orig.len() as int));
        assert(rest0.remove(0) =~= rest@);
        assert(rest0[0] == x);
        assert(rest0.contains(x));
        proof {
            rest0.to_multiset_ensures();
        }
        assert(rest0.to_multiset().count(x) > 0);
        assert(rest0.remove(0).to_multiset() =~= rest0.to_multiset().remove(x));
        let kx = key_of(&x, by_path);
        let ghost ox = out@;
        let mut p: usize = 0;
        while p < out.len() && (keys[p].0 < kx.0 || (keys[p].0 == kx.0 && text_le_exec(keys[p].1.as_str(), kx.1.as_str())))
            invariant
                out@ == ox,
                kx.0 == sort_key(x, by_path).0,
                kx.1@ == sort_key(x, by_path).1,
                out@.len() == keys@.len(),
                p <= out@.len(),
                forall|k: int| 0 <= k < keys@.len() ==> (#[trigger] keys@[k]).0 == sort_key(out@[k], by_path).0
                    && keys@[k].1@ == sort_key(out@[k], by_path).1,
                forall|k: int| 0 <= k < p ==> key_le(sort_key(#[trigger] out@[k], by_path), sort_key(x, by_path)),
            decreases out@.len() - p,
        {
            assert(keys@[p as int].0 == sort_key(out@[p as int], by_path).0);
            assert(key_le(sort_key(out@[p as int], by_path), sort_key(x, by_path)));
            p = p + 1;
        }
        proof {
            if p < ox.len() {
                lemma_text_le_total(sort_key(ox[p as int], by_path).1, sort_key(x, by_path).1);
                assert(key_le(sort_key(x, by_path), sort_key(ox[p as int], by_path)));
            }
            lemma_insert_multiset(ox, p as int, x);
        }
        out.insert(p, x);
        keys.insert(p, kx);
        assert(sorted_by_key(out@, by_path)) by {
            assert forall|i: int| 0 <= i < out@.len() - 1 implies key_le(
                sort_key(#[trigger] out@[i], by_path),
                sort_key(out@[i + 1], by_path),
            ) by {
                if i < p as int - 1 {
                    assert(out@[i] == ox[i] && out@[i + 1] == ox[i + 1]);
                } else if i == p as int - 1 {
                    assert(out@[i] == ox[i]);
                } else if i == p as int {
                } else {
                    assert(out@[i] == ox[i - 1] && out@[i + 1] == ox[i]);
                }
            }
        }
        assert(forall|k: int| 0 <= k < keys@.len() ==> (#[trigger] keys@[k]).0 == sort_key(out@[k], by_path).0
            && keys@[k].1@ == sort_key(out@[k], by_path).1) by {
            assert forall|k: int| 0 <= k < keys@.len() implies (#[trigger] keys@[k]).0 == sort_key(out@[k], by_path).0
                && keys@[k].1@ == sort_key(out@[k], by_path).1 by {
                if k > p as int {
                    assert(out@[k] == ox[k - 1]);
                }
            }
        }
        assert(out@.to_multiset().add(rest@.to_multiset()) =~= orig.to_multiset());
    }
    assert(rest@ =~= Seq::<FileItem>::empty());
    assert(out@.to_multiset().add(rest@.to_multiset()) =~= out@.to_multiset());
    out
}

/// A local directory's items in display order: directories first, then files,
/// each group by case-insensitive name; the same items, none lost or added.
pub fn sort_local_items(items: Vec<FileItem>) -> (r: Vec<FileItem>)
    ensures
        r@.to_multiset() == items@.to_multiset(),
        forall|i: int, j: int| 0 <= i < j < r@.len() ==> local_le(#[trigger] r@[i], #[trigger] r@[j]),
{
    let r = sort_items(items, false);
    proof {
        lemma_sorted_pairwise(r@, false);
    }
    r
}

/// Drive items in order of their paths; the same items, none lost or added.
pub fn sort_drive_items(items: Vec<FileItem>) -> (r: Vec<FileItem>)
    ensures
        r@.to_multiset() == items@.to_multiset(),
        forall|i: int, j: int| 0 <= i < j < r@.len() ==> path_le(#[trigger] r@[i], #[trigger] r@[j]),
{
    let r = sort_items(items, true);
    proof {
        lemma_sorted_pairwise(r@, true);
    }
    r
}

} // verus!
