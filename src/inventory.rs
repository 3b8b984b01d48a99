//! Resume detection: which pages of a document already have an image in the
//! output directory, and which are still missing.

use vstd::prelude::*;
use crate::text::{parse_unsigned, parse_unsigned_decimal};

verus! {

/// The suffix of an image file in the output directory.
pub open spec fn image_suffix() -> Seq<char> {
    seq!['.', 'w', 'e', 'b', 'p']
}

/// The zero-based page index that an output file name stands for: the file must
/// carry the image extension after a non-empty stem, and the stem must be an
/// unsigned decimal integer.
pub open spec fn stored_index(name: Seq<char>) -> Option<nat> {
    if name.len() > 5 && name.subrange(name.len() - 5, name.len() as int) == image_suffix() {
        parse_unsigned(name.subrange(0, name.len() - 5))
    } else {
        None
    }
}

/// The views of a listing of file names.
pub open spec fn names_view(names: Seq<String>) -> Seq<Seq<char>> {
    names.map_values(|s: String| s@)
}

/// Some file of the listing holds the (one-based) page `page`.
pub open spec fn page_is_stored(names: Seq<Seq<char>>, page: int) -> bool {
    exists|i: int| 0 <= i < names.len() && #[trigger] stored_index(names[i]) == Some((page - 1) as nat)
}

pub open spec fn strictly_ascending(s: Seq<usize>) -> bool {
    forall|i: int, j: int| 0 <= i < j < s.len() ==> s[i] < s[j]
}

/// `missing` and `present` are the pages `1..=n` without and with a stored image,
/// each in ascending order without repetition. Files for pages beyond `n` and
/// files that do not name a page are ignored.
pub open spec fn is_inventory(names: Seq<Seq<char>>, n: nat, missing: Seq<usize>, present: Seq<usize>) -> bool {
    &&& strictly_ascending(missing)
    &&& strictly_ascending(present)
    &&& forall|p: usize| #[trigger] missing.contains(p) <==> 1 <= p <= n && !page_is_stored(names, p as int)
    &&& forall|p: usize| #[trigger] present.contains(p) <==> 1 <= p <= n && page_is_stored(names, p as int)
}

/// The zero-based page index stored under the file name `name`, if it names one.
pub fn stored_page_index(name: &str) -> (r: Option<usize>)
    ensures
        match r {
            Some(v) => stored_index(name@) == Some(v as nat),
            None => stored_index(name@) is None,
        },
{
    let len = name.unicode_len();
    if len <= 5 {
        return None;
    }
    proof {
        reveal_strlit(".webp");
    }
    let suffix = ".webp";
    let mut k: usize = 0;
    while k < 5
        invariant
            k <= 5,
            len == name@.len(),
            len > 5,
            suffix@ == image_suffix(),
            forall|j: int| 0 <= j < k ==> name@[len - 5 + j] == image_suffix()[j],
        decreases 5 - k,
    {
        if name.get_char(len - 5 + k) != suffix.get_char(k) {
            proof {
                assert(name@.subrange(len - 5, len as int)[k as int] != image_suffix()[k as int]);
            }
            return None;
        }
        k = k + 1;
    }
    proof {
        assert(name@.subrange(len - 5, len as int) =~= image_suffix());
    }
    let stem = name.substring_char(0, len - 5);
    parse_unsigned_decimal(stem)
}

/// Splits the pages `1..=total_pages` into those that no file of `file_names`
/// holds yet (`missing`) and those that one does (`present`).
pub fn get_missing_pages(file_names: &Vec<String>, total_pages: usize) -> (r: (Vec<usize>, Vec<usize>))
    ensures
        is_inventory(names_view(file_names@), total_pages as nat, r.0@, r.1@),
{
    let ghost names = names_view(file_names@);
    let mut stored: Vec<bool> = Vec::new();
    let mut p: usize = 0;
    while p < total_pages
        invariant
            p <= total_pages,
            stored@.len() == p,
            forall|j: int| 0 <= j < p ==> !stored@[j],
        decreases total_pages - p,
    {
        stored.push(false);
        p = p + 1;
    }
    let mut f: usize = 0;
    while f < file_names.len()
        invariant
            f <= file_names.len(),
            names == names_view(file_names@),
            stored@.len() == total_pages,
            forall|j: int| 0 <= j < total_pages ==> (#[trigger] stored@[j] <==>
                exists|i: int| 0 <= i < f && stored_index(names[i]) == Some(j as nat)),
        decreases file_names.len() - f,
    {
        let idx = stored_page_index(file_names[f].as_str());
        proof {
            assert(names[f as int] == file_names@[f as int]@);
        }
        match idx {
            Some(v) => {
                if v < total_pages {
                    stored.set(v, true);
                }
            },
            None => {},
        }
        proof {
            assert forall|j: int| 0 <= j < total_pages implies (#[trigger] stored@[j] <==>
                exists|i: int| 0 <= i < f + 1 && stored_index(names[i]) == Some(j as nat)) by {
                if stored@[j] && !(exists|i: int| 0 <= i < f && stored_index(names[i]) == Some(j as nat)) {
                    assert(stored_index(names[f as int]) == Some(j as nat));
                }
            }
        }
        f = f + 1;
    }
    let mut missing: Vec<usize> = Vec::new();
    let mut present: Vec<usize> = Vec::new();
    let mut i: usize = 0;
    while i < total_pages
        invariant
            i <= total_pages,
            stored@.len() == total_pages,
            forall|j: int| 0 <= j < total_pages ==> (#[trigger] stored@[j] <==> page_is_stored(names, j + 1)),
            strictly_ascending(missing@),
            strictly_ascending(present@),
            forall|k: int| 0 <= k < missing@.len() ==> missing@[k] <= i,
            forall|k: int| 0 <= k < present@.len() ==> present@[k] <= i,
            forall|q: usize| #[trigger] missing@.contains(q) <==> 1 <= q <= i && !page_is_stored(names, q as int),
            forall|q: usize| #[trigger] present@.contains(q) <==> 1 <= q <= i && page_is_stored(names, q as int),
        decreases total_pages - i,
    {
        let page = i + 1;
        let ghost missing_before = missing@;
        let ghost present_before = present@;
        if stored[i] {
            present.push(page);
        } else {
            missing.push(page);
        }
        proof {
            assert(stored@[i as int] <==> page_is_stored(names, page as int));
            assert forall|q: usize| #[trigger] missing@.contains(q) <==> 1 <= q <= page && !page_is_stored(names, q as int) by {
                if missing@ != missing_before {
                    assert(missing@ == missing_before.push(page));
                    if missing@.contains(q) && q != page {
                        let k = missing@.index_of(q);
                        assert(missing_before[k] == q);
                    }
                    if q == page {
                        assert(missing@[missing_before.len() as int] == q);
                    }
                    if missing_before.contains(q) {
                        let k = missing_before.index_of(q);
                        assert(missing@[k] == q);
                    }
                }
            }
            assert forall|q: usize| #[trigger] present@.contains(q) <==> 1 <= q <= page && page_is_stored(names, q as int) by {
                if present@ != present_before {
                    assert(present@ == present_before.push(page));
                    if present@.contains(q) && q != page {
                        let k = present@.index_of(q);
                        assert(present_before[k] == q);
                    }
                    if q == page {
                        assert(present@[present_before.len() as int] == q);
                    }
                    if present_before.contains(q) {
                        let k = present_before.index_of(q);
                        assert(present@[k] == q);
                    }
                }
            }
        }
        i = page;
    }
    (missing, present)
}

/// Every page `1..=n` is in exactly one of the two lists, and neither list holds
/// anything else.
pub proof fn lemma_inventory_partitions(names: Seq<Seq<char>>, n: nat, missing: Seq<usize>, present: Seq<usize>)
    requires
        n <= usize::MAX,
        is_inventory(names, n, missing, present),
    ensures
        forall|p: usize| 1 <= p <= n ==> (#[trigger] missing.contains(p) != present.contains(p)),
        forall|p: usize| #[trigger] missing.contains(p) || present.contains(p) ==> 1 <= p <= n,
        missing.len() + present.len() == n,
{
    assert forall|p: usize| 1 <= p <= n implies (#[trigger] missing.contains(p) != present.contains(p)) by {}
    let full = Set::new(|p: usize| 1 <= p <= n);
    lemma_ascending_no_duplicates(missing);
    lemma_ascending_no_duplicates(present);
    missing.unique_seq_to_set();
    present.unique_seq_to_set();
    assert(missing.to_set().disjoint(present.to_set()));
    assert(missing.to_set() + present.to_set() =~= full);
    lemma_page_range_size(n);
    vstd::set_lib::lemma_set_disjoint_lens(missing.to_set(), present.to_set());
}

/// Taking the inventory twice of one listing and one page count gives the same
/// two lists: the result depends on nothing else.
pub proof fn lemma_inventory_deterministic(
    names: Seq<Seq<char>>,
    n: nat,
    missing1: Seq<usize>,
    present1: Seq<usize>,
    missing2: Seq<usize>,
    present2: Seq<usize>,
)
    requires
        is_inventory(names, n, missing1, present1),
        is_inventory(names, n, missing2, present2),
    ensures
        missing1 == missing2,
        present1 == present2,
{
    lemma_ascending_same_elements(missing1, missing2);
    lemma_ascending_same_elements(present1, present2);
}

proof fn lemma_ascending_no_duplicates(s: Seq<usize>)
    requires
        strictly_ascending(s),
    ensures
        s.no_duplicates(),
{
    assert forall|i: int, j: int| 0 <= i < s.len() && 0 <= j < s.len() && i != j implies s[i] != s[j] by {
        if i < j {
            assert(s[i] < s[j]);
        } else {
            assert(s[j] < s[i]);
        }
    }
}

/// Two ascending sequences without repetition that hold the same values are equal.
proof fn lemma_ascending_same_elements(a: Seq<usize>, b: Seq<usize>)
    requires
        strictly_ascending(a),
        strictly_ascending(b),
        forall|x: usize| a.contains(x) <==> b.contains(x),
    ensures
        a == b,
    decreases a.len(),
{
    if a.len() == 0 {
        if b.len() > 0 {
            assert(b.contains(b[0]));
        }
        assert(b =~= a);
    } else {
        assert(a.contains(a[0]));
        let j = b.index_of(a[0]);
        assert(b.contains(b[0]));
        let i = a.index_of(b[0]);
        assert(a[0] <= a[i]);
        assert(b[0] <= b[j]);
        assert(a[0] == b[0]);
        let a1 = a.drop_first();
        let b1 = b.drop_first();
        assert forall|x: usize| a1.contains(x) <==> b1.contains(x) by {
            if a1.contains(x) {
                let k = a1.index_of(x);
                assert(a[k + 1] == x);
                assert(x > a[0]);
                assert(b.contains(x));
                let m = b.index_of(x);
                assert(m != 0);
                assert(b1[m - 1] == x);
            }
            if b1.contains(x) {
                let k = b1.index_of(x);
                assert(b[k + 1] == x);
                assert(x > b[0]);
                assert(a.contains(x));
                let m = a.index_of(x);
                assert(m != 0);
                assert(a1[m - 1] == x);
            }
        }
        lemma_ascending_same_elements(a1, b1);
        assert forall|k: int| 0 <= k < a.len() implies a[k] == b[k] by {
            if k > 0 {
                assert(a[k] == a1[k - 1]);
                assert(b[k] == b1[k - 1]);
            }
        }
        assert(a =~= b);
    }
}

/// The pages `1..=n` number `n`.
proof fn lemma_page_range_size(n: nat)
    requires
        n <= usize::MAX,
    ensures
        Set::new(|p: usize| 1 <= p <= n).finite(),
        Set::new(|p: usize| 1 <= p <= n).len() == n,
    decreases n,
{
    let s = Set::new(|p: usize| 1 <= p <= n);
    if n == 0 {
        assert(s =~= Set::empty());
    } else {
        lemma_page_range_size((n - 1) as nat);
        let t = Set::new(|p: usize| 1 <= p <= n - 1);
        assert(s =~= t.insert(n as usize));
    }
}

} // verus!
