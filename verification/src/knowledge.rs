//! Witness and public-input bundles handed to the proving pipeline.
//!
//! A `Knowledge` bundle carries the prover's private witness material and a
//! `Marker` bundle the verifier's public inputs, each as optional number
//! lists (`wn`, `vn`) and optional bit-encoded lists (`wb`, `vb`) with the
//! bit width named by the tag `ut`.  The flattening into one value vector —
//! bit-encoded parts first for a witness, numbers first for a verification
//! — is the computed core here; feeding the vector to the proving engine is
//! the caller's step.

use vstd::prelude::*;
use vstd::utf8::encode_utf8;
use crate::transform::{collect_bits_spec, tag_width, IntoField};

verus! {

/// Width named by an optional tag string; 0 when absent or unknown.
pub open spec fn opt_tag_width(ut: Option<String>) -> int {
    match ut {
        Some(t) => tag_width(encode_utf8(t@)),
        None => 0,
    }
}

/// The values an optional bit-encoded list contributes: each number's bits
/// at the tag's width, or nothing when the list or the tag is absent.
pub open spec fn bits_part(o: Option<Vec<usize>>, ut: Option<String>) -> Seq<usize> {
    match o {
        Some(v) => if ut is Some {
            collect_bits_spec(v@, opt_tag_width(ut)).map_values(|b: u8| b as usize)
        } else {
            Seq::empty()
        },
        None => Seq::empty(),
    }
}

/// The values an optional number list contributes.
pub open spec fn nums_part(o: Option<Vec<usize>>) -> Seq<usize> {
    match o {
        Some(v) => v@,
        None => Seq::empty(),
    }
}

/// The prover's witness bundle.
pub struct Knowledge {
    pub wb: Option<Vec<usize>>,
    pub vb: Option<Vec<usize>>,
    pub wn: Option<Vec<usize>>,
    pub vn: Option<Vec<usize>>,
    pub ut: Option<String>,
}

/// The flat assignment vector of a witness bundle: the two bit-encoded
/// parts, then the two number parts, in field order.
pub open spec fn assignments_spec(k: Knowledge) -> Seq<usize> {
    bits_part(k.wb, k.ut) + bits_part(k.vb, k.ut) + nums_part(k.wn) + nums_part(k.vn)
}

impl Knowledge {
    /// Bundles the five optional parts.
    pub fn into(
        wb: Option<Vec<usize>>,
        vb: Option<Vec<usize>>,
        wn: Option<Vec<usize>>,
        vn: Option<Vec<usize>>,
        ut: Option<String>,
    ) -> (r: Knowledge)
        ensures
            r.wb == wb,
            r.vb == vb,
            r.wn == wn,
            r.vn == vn,
            r.ut == ut,
    {
        Knowledge { wb, vb, wn, vn, ut }
    }

    /// Bundles number lists alone.
    pub fn into_num_only(wn: Option<Vec<usize>>, vn: Option<Vec<usize>>) -> (r: Knowledge)
        ensures
            r.wb is None,
            r.vb is None,
            r.wn == wn,
            r.vn == vn,
            r.ut is None,
    {
        Knowledge::into(None, None, wn, vn, None)
    }

    /// Flattens the bundle into the assignment vector the proving engine
    /// consumes.  A bit-encoded part present without a recognized width tag
    /// is rejected by precondition, as nothing sensible can be emitted.
    pub fn assignments(self) -> (r: Vec<usize>)
        requires
            (self.wb is Some || self.vb is Some) && self.ut is Some ==> opt_tag_width(self.ut)
                != 0,
        ensures
            r@ == assignments_spec(self),
    {
        let ghost k = self;
        let Knowledge { wb, vb, wn, vn, ut } = self;
        let mut out: Vec<usize> = Vec::new();
        append_bits_part(&mut out, wb, &ut);
        append_bits_part(&mut out, vb, &ut);
        append_nums_part(&mut out, wn);
        append_nums_part(&mut out, vn);
        proof {
            assert(out@ =~= assignments_spec(k));
        }
        out
    }
}

/// The verifier's public-input bundle.
pub struct Marker {
    pub vn: Option<Vec<usize>>,
    pub vb: Option<Vec<usize>>,
    pub ut: Option<String>,
}

/// The flat public-input vector of a verification bundle: numbers first,
/// then the bit-encoded part.
pub open spec fn inputs_spec(m: Marker) -> Seq<usize> {
    nums_part(m.vn) + bits_part(m.vb, m.ut)
}

impl Marker {
    /// Bundles the three optional parts.
    pub fn into(vn: Option<Vec<usize>>, vb: Option<Vec<usize>>, ut: Option<String>) -> (r: Marker)
        ensures
            r.vn == vn,
            r.vb == vb,
            r.ut == ut,
    {
        Marker { vn, vb, ut }
    }

    /// Flattens the bundle into the public-input vector the verifying
    /// engine consumes.
    pub fn inputs(self) -> (r: Vec<usize>)
        requires
            self.vb is Some && self.ut is Some ==> opt_tag_width(self.ut) != 0,
        ensures
            r@ == inputs_spec(self),
    {
        let ghost m = self;
        let Marker { vn, vb, ut } = self;
        let mut out: Vec<usize> = Vec::new();
        append_nums_part(&mut out, vn);
        append_bits_part(&mut out, vb, &ut);
        proof {
            assert(out@ =~= inputs_spec(m));
        }
        out
    }
}

/// Appends an optional bit-encoded part.
fn append_bits_part(out: &mut Vec<usize>, o: Option<Vec<usize>>, ut: &Option<String>)
    requires
        o is Some && *ut is Some ==> opt_tag_width(*ut) != 0,
    ensures
        final(out)@ == old(out)@ + bits_part(o, *ut),
{
    let ghost o0 = o;
    match o {
        Some(v) => {
            match ut {
                Some(t) => {
                    let ghost v0 = v@;
                    match v.collect_bits(t.as_str()) {
                        Some(mut bs) => {
                            proof {
                                assert(bs@.map_values(|x: usize| x as u8) == collect_bits_spec(
                                    v0,
                                    opt_tag_width(*ut),
                                ));
                                assert(bs@ =~= bits_part(o0, *ut)) by {
                                    assert forall|j: int| 0 <= j < bs@.len() implies bs@[j]
                                        == bits_part(o0, *ut)[j] by {
                                        assert(bs@.map_values(|x: usize| x as u8)[j] == (
                                        bs@[j]) as u8);
                                        assert(bits_part(o0, *ut)[j] == (collect_bits_spec(
                                            v0,
                                            opt_tag_width(*ut),
                                        )[j]) as usize);
                                    }
                                }
                            }
                            out.append(&mut bs);
                        },
                        None => {
                            proof {
                                assert(v0.len() == 0);
                                assert(bits_part(o0, *ut) =~= Seq::<usize>::empty());
                            }
                        },
                    }
                },
                None => {
                },
            }
        },
        None => {
        },
    }
    proof {
        assert(final(out)@ =~= old(out)@ + bits_part(o0, *ut));
    }
}

/// Appends an optional number part.
fn append_nums_part(out: &mut Vec<usize>, o: Option<Vec<usize>>)
    ensures
        final(out)@ == old(out)@ + nums_part(o),
{
    let ghost o0 = o;
    match o {
        Some(v) => {
            match v.collect_nums() {
                Some(mut ns) => {
                    out.append(&mut ns);
                },
                None => {
                },
            }
        },
        None => {
        },
    }
    proof {
        assert(final(out)@ =~= old(out)@ + nums_part(o0));
    }
}

} // verus!
