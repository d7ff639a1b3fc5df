//! Remote directory listings: entries ordered with directories first, then
//! by name.

use vstd::prelude::*;
use vstd::multiset::Multiset;
use vstd::utf8::encode_utf8;
use crate::config::{
    bytes_before, compare_text, lemma_before_irreflexive, lemma_before_transitive, TextOrder,
};

verus! {

broadcast use vstd::seq_lib::group_to_multiset_ensures;

/// One entry of a remote directory.
#[derive(Clone, Debug)]
pub struct FileInfo {
    pub name: String,
    pub path: String,
    pub size: u64,
    pub is_dir: bool,
    pub permissions: u32,
}

/// `a` is listed before `b`: a directory before a file, and otherwise in the
/// byte order of the names.
pub open spec fn listed_before(a: FileInfo, b: FileInfo) -> bool {
    (a.is_dir && !b.is_dir) || (a.is_dir == b.is_dir && bytes_before(
        encode_utf8(a.name@),
        encode_utf8(b.name@),
    ))
}

/// No entry is listed before one that comes earlier.
pub open spec fn listing_sorted(s: Seq<FileInfo>) -> bool {
    forall|i: int, j: int| 0 <= i < j < s.len() ==> !listed_before(#[trigger] s[j], #[trigger] s[i])
}

proof fn lemma_listed_before_transitive(a: FileInfo, b: FileInfo, c: FileInfo)
    requires
        listed_before(a, b),
        listed_before(b, c),
    ensures
        listed_before(a, c),
{
    if a.is_dir == b.is_dir && b.is_dir == c.is_dir {
        lemma_before_transitive(encode_utf8(a.name@), encode_utf8(b.name@), encode_utf8(c.name@));
    }
}

proof fn lemma_listed_before_asymmetric(a: FileInfo, b: FileInfo)
    requires
        listed_before(a, b),
    ensures
        !listed_before(b, a),
{
    if listed_before(b, a) {
        if a.is_dir == b.is_dir {
            lemma_before_transitive(encode_utf8(a.name@), encode_utf8(b.name@), encode_utf8(a.name@));
            lemma_before_irreflexive(encode_utf8(a.name@));
        }
    }
}

fn is_listed_before(a: &FileInfo, b: &FileInfo) -> (r: bool)
    ensures
        r == listed_before(*a, *b),
{
    if a.is_dir != b.is_dir {
        a.is_dir
    } else {
        match compare_text(a.name.as_str(), b.name.as_str()) {
            TextOrder::Before => true,
            _ => false,
        }
    }
}

/// Orders a listing: directories first, then by name.
pub fn sort_listing(files: Vec<FileInfo>) -> (r: Vec<FileInfo>)
    ensures
        listing_sorted(r@),
        r@.to_multiset() == files@.to_multiset(),
{
    let mut rest = files;
    let mut out: Vec<FileInfo> = Vec::new();
    while rest.len() > 0
        invariant
            listing_sorted(out@),
            out@.to_multiset().add(rest@.to_multiset()) == files@.to_multiset(),
        decreases rest@.len(),
    {
        let ghost before_rest = rest@;
        let f = rest.remove(0);
        proof {
            vstd::seq_lib::to_multiset_remove(before_rest, 0);
        }
        let mut p: usize = 0;
        while p < out.len() && !is_listed_before(&f, &out[p])
            invariant
                p <= out@.len(),
                forall|k: int| 0 <= k < p ==> !listed_before(f, #[trigger] out@[k]),
            decreases out@.len() - p,
        {
            p = p + 1;
        }
        let ghost old_out = out@;
        out.insert(p, f);
        proof {
            vstd::seq_lib::to_multiset_insert(old_out, p as int, f);
            let t = out@;
            assert forall|i: int, j: int| 0 <= i < j < t.len() implies !listed_before(
                #[trigger] t[j],
                #[trigger] t[i],
            ) by {
                if j < p {
                    assert(t[i] == old_out[i] && t[j] == old_out[j]);
                } else if j == p {
                    assert(t[i] == old_out[i]);
                } else if i < p {
                    assert(t[i] == old_out[i] && t[j] == old_out[j - 1]);
                    if listed_before(t[j], t[i]) {
                        // t[j] is old_out[p] or after it, and f precedes old_out[p].
                        assert(listed_before(f, old_out[p as int]));
                        if j - 1 > p {
                            assert(!listed_before(old_out[j - 1], old_out[p as int]));
                        }
                        lemma_listed_before_transitive(t[j], t[i], f);
                        assert(false) by {
                            if j - 1 > p {
                                lemma_listed_before_transitive(old_out[j - 1], f, old_out[p as int]);
                            } else {
                                lemma_listed_before_asymmetric(f, old_out[p as int]);
                            }
                        }
                    }
                } else if i == p {
                    assert(t[j] == old_out[j - 1]);
                    assert(listed_before(f, old_out[p as int]));
                    if listed_before(t[j], f) {
                        if j - 1 > p {
                            assert(!listed_before(old_out[j - 1], old_out[p as int]));
                            lemma_listed_before_transitive(old_out[j - 1], f, old_out[p as int]);
                        } else {
                            lemma_listed_before_asymmetric(f, old_out[p as int]);
                        }
                    }
                } else {
                    assert(t[i] == old_out[i - 1] && t[j] == old_out[j - 1]);
                }
            }
            assert(t.to_multiset().add(rest@.to_multiset()) =~= files@.to_multiset());
        }
    }
    proof {
        assert(rest@.to_multiset() =~= Multiset::<FileInfo>::empty());
        assert(out@.to_multiset().add(Multiset::empty()) =~= out@.to_multiset());
    }
    out
}

} // verus!
