//! Batch processing over a list of already-read directory entries: every
//! eligible entry is mapped through the extractor to an output file, in
//! order, and the first extraction error aborts the whole batch.

use vstd::prelude::*;

use crate::extract::{extract_spec, extract_summary, ExtractError};
use crate::naming::{eligible, name_outfile, outname_spec};

verus! {

/// One directory entry handed to the batch: its filename and the text read
/// from it.
pub struct BatchEntry {
    /// The entry's filename, without any directory part.
    pub name: Vec<u8>,
    /// The full text of the entry.
    pub text: Vec<u8>,
}

/// One output of the batch: the derived filename and the summary to write
/// under it.
pub struct BatchOutput {
    /// The derived output filename.
    pub name: Vec<u8>,
    /// The extracted summary text.
    pub text: Vec<u8>,
}

/// The outputs as pairs of filename and contents.
pub open spec fn out_views(v: Seq<BatchOutput>) -> Seq<(Seq<u8>, Seq<u8>)> {
    Seq::new(v.len(), |i: int| (v[i].name@, v[i].text@))
}

/// What the batch yields on a list of entries: the output filename and
/// summary of each eligible entry in order, or the first extraction error.
pub open spec fn batch_spec(entries: Seq<BatchEntry>) -> Result<
    Seq<(Seq<u8>, Seq<u8>)>,
    ExtractError,
>
    decreases entries.len(),
{
    if entries.len() == 0 {
        Ok(Seq::empty())
    } else {
        let e = entries[0];
        if !eligible(e.name@) {
            batch_spec(entries.skip(1))
        } else {
            match extract_spec(e.text@) {
                Err(err) => Err(err),
                Ok(s) => match batch_spec(entries.skip(1)) {
                    Err(err) => Err(err),
                    Ok(rest) => Ok(seq![(outname_spec(e.name@), s)] + rest),
                },
            }
        }
    }
}

/// The batch result with a prefix of already-produced outputs put in front.
pub open spec fn with_prefix(
    prefix: Seq<(Seq<u8>, Seq<u8>)>,
    r: Result<Seq<(Seq<u8>, Seq<u8>)>, ExtractError>,
) -> Result<Seq<(Seq<u8>, Seq<u8>)>, ExtractError> {
    match r {
        Ok(rest) => Ok(prefix + rest),
        Err(err) => Err(err),
    }
}

/// Map every eligible entry through the extractor, failing fast on the
/// first entry whose text yields no unique summary.
pub fn run_batch(entries: &Vec<BatchEntry>) -> (r: Result<Vec<BatchOutput>, ExtractError>)
    ensures
        match r {
            Ok(outs) => batch_spec(entries@) == Ok::<_, ExtractError>(out_views(outs@)),
            Err(e) => batch_spec(entries@) == Err::<Seq<(Seq<u8>, Seq<u8>)>, _>(e),
        },
{
    let n = entries.len();
    let mut outs: Vec<BatchOutput> = Vec::new();
    let mut idx: usize = 0;
    proof {
        assert(entries@.skip(0) =~= entries@);
        assert(out_views(outs@) =~= Seq::<(Seq<u8>, Seq<u8>)>::empty());
        match batch_spec(entries@) {
            Ok(rest) => {
                assert(out_views(outs@) + rest =~= rest);
            },
            Err(_) => {},
        }
    }
    while idx < n
        invariant
            idx <= n == entries@.len(),
            batch_spec(entries@) == with_prefix(
                out_views(outs@),
                batch_spec(entries@.skip(idx as int)),
            ),
        decreases n - idx,
    {
        let entry = &entries[idx];
        proof {
            assert(entries@.skip(idx as int).len() > 0);
            assert(entries@.skip(idx as int)[0] == entries@[idx as int]);
            assert(entries@.skip(idx as int).skip(1) =~= entries@.skip(idx as int + 1));
        }
        match name_outfile(&entry.name) {
            None => {
                proof {
                    assert(batch_spec(entries@.skip(idx as int)) == batch_spec(
                        entries@.skip(idx as int + 1),
                    ));
                }
            },
            Some(outname) => {
                match extract_summary(&entry.text) {
                    Err(err) => {
                        proof {
                            assert(batch_spec(entries@.skip(idx as int)) == Err::<
                                Seq<(Seq<u8>, Seq<u8>)>,
                                _,
                            >(err));
                        }
                        return Err(err);
                    },
                    Ok(summary) => {
                        let ghost prev_outs = outs@;
                        let ghost pair = (outname@, summary@);
                        outs.push(BatchOutput { name: outname, text: summary });
                        proof {
                            assert(out_views(outs@) =~= out_views(prev_outs) + seq![pair]);
                            match batch_spec(entries@.skip(idx as int + 1)) {
                                Ok(rest) => {
                                    assert((out_views(prev_outs) + seq![pair]) + rest
                                        =~= out_views(prev_outs) + (seq![pair] + rest));
                                },
                                Err(_) => {},
                            }
                        }
                    },
                }
            },
        }
        idx = idx + 1;
    }
    proof {
        assert(entries@.skip(n as int) =~= Seq::<BatchEntry>::empty());
        assert(batch_spec(entries@.skip(n as int)) == Ok::<_, ExtractError>(
            Seq::<(Seq<u8>, Seq<u8>)>::empty(),
        ));
        assert(out_views(outs@) + Seq::<(Seq<u8>, Seq<u8>)>::empty() =~= out_views(outs@));
    }
    Ok(outs)
}

} // verus!
