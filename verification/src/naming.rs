//! Derivation of an output filename for batch mode: a file named
//! `{stem}.{ext}` with extension `log` or `txt` maps to
//! `{stem}-summary.{ext}`; every other name is skipped.

use vstd::prelude::*;

verus! {

/// The dot that separates a stem from its extension.
pub open spec fn dot() -> u8 {
    46
}

/// `p` is the position of the last dot of `name`.
pub open spec fn last_dot_at(name: Seq<u8>, p: int) -> bool {
    &&& 0 <= p < name.len()
    &&& name[p] == dot()
    &&& forall|k: int| p < k < name.len() ==> name[k] != dot()
}

/// The extension: everything after the dot at `p`.
pub open spec fn ext_of(name: Seq<u8>, p: int) -> Seq<u8> {
    name.subrange(p + 1, name.len() as int)
}

/// The bytes of "log".
pub open spec fn log_ext() -> Seq<u8> {
    seq![108u8, 111u8, 103u8]
}

/// The bytes of "txt".
pub open spec fn txt_ext() -> Seq<u8> {
    seq![116u8, 120u8, 116u8]
}

/// The last dot of `name` stands at `p`, leaves a non-empty stem before it,
/// and carries the extension `log` or `txt`. A name whose only dot opens it
/// has no extension at all, so it is not eligible.
pub open spec fn eligible_at(name: Seq<u8>, p: int) -> bool {
    &&& last_dot_at(name, p)
    &&& p >= 1
    &&& (ext_of(name, p) == log_ext() || ext_of(name, p) == txt_ext())
}

/// `name` yields an output filename.
pub open spec fn eligible(name: Seq<u8>) -> bool {
    exists|p: int| eligible_at(name, p)
}

/// The bytes of "-summary".
pub open spec fn summary_suffix() -> Seq<u8> {
    seq![45u8, 115u8, 117u8, 109u8, 109u8, 97u8, 114u8, 121u8]
}

/// The output filename with the suffix spliced in before the dot at `p`:
/// `{stem}-summary.{ext}`.
pub open spec fn outname_at(name: Seq<u8>, p: int) -> Seq<u8> {
    name.subrange(0, p) + summary_suffix() + name.subrange(p, name.len() as int)
}

/// The position of the last dot of an eligible name.
pub open spec fn the_dot(name: Seq<u8>) -> int {
    choose|p: int| eligible_at(name, p)
}

/// The output filename of an eligible name.
pub open spec fn outname_spec(name: Seq<u8>) -> Seq<u8> {
    outname_at(name, the_dot(name))
}

/// A name has at most one last dot.
pub proof fn lemma_last_dot_unique(name: Seq<u8>, p1: int, p2: int)
    requires
        last_dot_at(name, p1),
        last_dot_at(name, p2),
    ensures
        p1 == p2,
{
    if p1 < p2 {
        assert(name[p2] != dot());
        assert(false);
    }
    if p2 < p1 {
        assert(name[p1] != dot());
        assert(false);
    }
}

/// Derive the output filename for a directory entry, or nothing when the
/// entry is to be skipped.
pub fn name_outfile(name: &Vec<u8>) -> (r: Option<Vec<u8>>)
    ensures
        match r {
            Some(out) => eligible(name@) && out@ == outname_spec(name@),
            None => !eligible(name@),
        },
{
    let n = name.len();
    let mut q = n;
    while q > 0 && name[q - 1] != 46
        invariant
            q <= n == name@.len(),
            forall|k: int| q <= k < n ==> name@[k] != dot(),
        decreases q,
    {
        q = q - 1;
    }
    if q == 0 {
        // No dot anywhere: no extension.
        assert(!eligible(name@)) by {
            if eligible(name@) {
                let p = choose|p: int| eligible_at(name@, p);
            }
        }
        return None;
    }
    let p = q - 1;
    assert(last_dot_at(name@, p as int));
    if p == 0 {
        // The name opens with its only dot: a hidden file without extension.
        assert(!eligible(name@)) by {
            if eligible(name@) {
                let p2 = choose|p2: int| eligible_at(name@, p2);
                lemma_last_dot_unique(name@, p as int, p2);
            }
        }
        return None;
    }
    if n - p != 4 {
        // The extension has a length other than three.
        assert(!eligible(name@)) by {
            if eligible(name@) {
                let p2 = choose|p2: int| eligible_at(name@, p2);
                lemma_last_dot_unique(name@, p as int, p2);
                assert(ext_of(name@, p as int).len() == 3);
            }
        }
        return None;
    }
    let e0 = name[p + 1];
    let e1 = name[p + 2];
    let e2 = name[p + 3];
    let is_log = e0 == 108 && e1 == 111 && e2 == 103;
    let is_txt = e0 == 116 && e1 == 120 && e2 == 116;
    if !(is_log || is_txt) {
        assert(!eligible(name@)) by {
            if eligible(name@) {
                let p2 = choose|p2: int| eligible_at(name@, p2);
                lemma_last_dot_unique(name@, p as int, p2);
                let ext = ext_of(name@, p as int);
                assert(ext[0] == name@[p + 1] && ext[1] == name@[p + 2] && ext[2] == name@[p + 3]);
                assert(log_ext()[0] == 108 && log_ext()[1] == 111 && log_ext()[2] == 103);
                assert(txt_ext()[0] == 116 && txt_ext()[1] == 120 && txt_ext()[2] == 116);
            }
        }
        return None;
    }
    assert(eligible_at(name@, p as int)) by {
        let ext = ext_of(name@, p as int);
        if is_log {
            assert(ext =~= log_ext());
        } else {
            assert(ext =~= txt_ext());
        }
    }
    let mut out: Vec<u8> = Vec::new();
    let mut k: usize = 0;
    while k < p
        invariant
            k <= p < n == name@.len(),
            out@ == name@.subrange(0, k as int),
        decreases p - k,
    {
        out.push(name[k]);
        proof {
            assert(out@ =~= name@.subrange(0, k + 1));
        }
        k = k + 1;
    }
    out.push(45);
    out.push(115);
    out.push(117);
    out.push(109);
    out.push(109);
    out.push(97);
    out.push(114);
    out.push(121);
    proof {
        assert(out@ =~= name@.subrange(0, p as int) + summary_suffix());
    }
    let mut m: usize = p;
    while m < n
        invariant
            p <= m <= n == name@.len(),
            out@ == name@.subrange(0, p as int) + summary_suffix() + name@.subrange(
                p as int,
                m as int,
            ),
        decreases n - m,
    {
        out.push(name[m]);
        proof {
            assert(out@ =~= name@.subrange(0, p as int) + summary_suffix() + name@.subrange(
                p as int,
                m + 1,
            ));
        }
        m = m + 1;
    }
    proof {
        assert(eligible(name@));
        let pd = the_dot(name@);
        lemma_last_dot_unique(name@, p as int, pd);
        assert(out@ == outname_spec(name@));
    }
    Some(out)
}

} // verus!
