//! Tagged script-evaluation results and the value marshaller: conversion of
//! a result into output fields (map mode), into a keep/drop decision (filter
//! mode), and into the text of the final diagnostic line.

use vstd::prelude::*;
use crate::text::{spec_dec_i64, i64_to_dec, views};

verus! {

/// A scalar value produced by one script evaluation.  A float is carried as
/// its two decimal renderings (shortest round-trippable, and the plain
/// display form) together with its filter decision, because the library
/// itself holds no floating-point values.  `Other` carries the printed
/// description of a value of an unsupported kind.
pub enum Scalar {
    Nil,
    Bool(bool),
    Int(i64),
    Num { text: Vec<u8>, shown: Vec<u8>, nonzero: bool },
    Str(Vec<u8>),
    Other(Vec<u8>),
}

/// What one evaluation of a script phase returns: a scalar, or an ordered
/// collection of scalars (a composite result mapped onto several columns).
pub enum Computed {
    Scalar(Scalar),
    Composite(Vec<Scalar>),
}

/// Mathematical model of a `Scalar`.
pub enum SVal {
    Nil,
    Bool(bool),
    Int(i64),
    Num { text: Seq<u8>, shown: Seq<u8>, nonzero: bool },
    Str(Seq<u8>),
    Other(Seq<u8>),
}

/// Mathematical model of a `Computed`.
pub enum SRes {
    Scalar(SVal),
    Composite(Seq<SVal>),
}

impl View for Scalar {
    type V = SVal;

    open spec fn view(&self) -> SVal {
        match self {
            Scalar::Nil => SVal::Nil,
            Scalar::Bool(b) => SVal::Bool(*b),
            Scalar::Int(i) => SVal::Int(*i),
            Scalar::Num { text, shown, nonzero } => SVal::Num {
                text: text@,
                shown: shown@,
                nonzero: *nonzero,
            },
            Scalar::Str(s) => SVal::Str(s@),
            Scalar::Other(d) => SVal::Other(d@),
        }
    }
}

impl View for Computed {
    type V = SRes;

    open spec fn view(&self) -> SRes {
        match self {
            Computed::Scalar(s) => SRes::Scalar(s@),
            Computed::Composite(v) => SRes::Composite(v@.map_values(|s: Scalar| s@)),
        }
    }
}

/// The text `true`.
pub open spec fn txt_true() -> Seq<u8> {
    seq![116u8, 114u8, 117u8, 101u8]
}

/// The text `false`.
pub open spec fn txt_false() -> Seq<u8> {
    seq![102u8, 97u8, 108u8, 115u8, 101u8]
}

/// The text `null`.
pub open spec fn txt_null() -> Seq<u8> {
    seq![110u8, 117u8, 108u8, 108u8]
}

/// The text `table`, describing a composite value where a scalar was due.
pub open spec fn txt_table() -> Seq<u8> {
    seq![116u8, 97u8, 98u8, 108u8, 101u8]
}

/// The sentinel text substituted for a failed row computation: `<ERROR>`.
pub open spec fn txt_sentinel() -> Seq<u8> {
    seq![60u8, 69u8, 82u8, 82u8, 79u8, 82u8, 62u8]
}

/// The text `true` as a value.
pub fn true_text() -> (v: Vec<u8>)
    ensures
        v@ == txt_true(),
{
    let v = vec![116u8, 114u8, 117u8, 101u8];
    assert(v@ =~= txt_true());
    v
}

/// The text `false` as a value.
pub fn false_text() -> (v: Vec<u8>)
    ensures
        v@ == txt_false(),
{
    let v = vec![102u8, 97u8, 108u8, 115u8, 101u8];
    assert(v@ =~= txt_false());
    v
}

/// The text `null` as a value.
pub fn null_text() -> (v: Vec<u8>)
    ensures
        v@ == txt_null(),
{
    let v = vec![110u8, 117u8, 108u8, 108u8];
    assert(v@ =~= txt_null());
    v
}

/// The sentinel failure text as a value.
pub fn sentinel_text() -> (v: Vec<u8>)
    ensures
        v@ == txt_sentinel(),
{
    let v = vec![60u8, 69u8, 82u8, 82u8, 79u8, 82u8, 62u8];
    assert(v@ =~= txt_sentinel());
    v
}

/// A scalar the marshaller accepts; anything else aborts the run.
pub open spec fn sval_supported(v: SVal) -> bool {
    !(v is Other)
}

/// The output-field text of a supported scalar: strings stand as they are,
/// integers in canonical decimal, floats in their shortest round-trippable
/// form, booleans as `true`/`false`, and an absent value as empty text.
pub open spec fn sval_field_text(v: SVal) -> Seq<u8> {
    match v {
        SVal::Nil => Seq::empty(),
        SVal::Bool(b) => if b {
            txt_true()
        } else {
            txt_false()
        },
        SVal::Int(i) => spec_dec_i64(i as int),
        SVal::Num { text, .. } => text,
        SVal::Str(s) => s,
        SVal::Other(_) => Seq::empty(),
    }
}

/// Renders one supported scalar as an output field.
pub fn scalar_field_text(v: &Scalar) -> (r: Vec<u8>)
    ensures
        r@ == sval_field_text(v@),
{
    match v {
        Scalar::Nil => Vec::new(),
        Scalar::Bool(b) => if *b {
            true_text()
        } else {
            false_text()
        },
        Scalar::Int(i) => i64_to_dec(*i),
        Scalar::Num { text, .. } => text.clone(),
        Scalar::Str(s) => s.clone(),
        Scalar::Other(_) => Vec::new(),
    }
}

/// Fields produced from the entries of a composite result.  `remaining`
/// counts how many declared columns are still to fill; a negative value
/// means no declared bound.  Entry conversion stops once the bound is
/// reached; missing entries are padded with empty text; an entry of an
/// unsupported kind is a fatal error carrying its description.
pub open spec fn spec_composite_fields(vals: Seq<SVal>, remaining: int) -> Result<
    Seq<Seq<u8>>,
    Seq<u8>,
>
    decreases vals.len(),
{
    if remaining == 0 {
        Ok(Seq::empty())
    } else if vals.len() == 0 {
        if remaining > 0 {
            Ok(Seq::new(remaining as nat, |i: int| Seq::<u8>::empty()))
        } else {
            Ok(Seq::empty())
        }
    } else if !sval_supported(vals[0]) {
        Err(vals[0]->Other_0)
    } else {
        let rest = spec_composite_fields(
            vals.skip(1),
            if remaining > 0 {
                remaining - 1
            } else {
                remaining
            },
        );
        match rest {
            Ok(t) => Ok(seq![sval_field_text(vals[0])] + t),
            Err(e) => Err(e),
        }
    }
}

/// The output fields of one evaluation result in map mode, or the fatal
/// error its kind provokes.  A scalar result yields exactly one field,
/// whatever the number of declared new columns; a composite result is cut
/// or padded to that number when one was declared.
pub open spec fn spec_map_fields(r: SRes, ncols: u8) -> Result<Seq<Seq<u8>>, Seq<u8>> {
    match r {
        SRes::Scalar(v) => if sval_supported(v) {
            Ok(seq![sval_field_text(v)])
        } else {
            Err(v->Other_0)
        },
        SRes::Composite(vals) => spec_composite_fields(
            vals,
            if ncols == 0 {
                -1
            } else {
                ncols as int
            },
        ),
    }
}

/// Marshals one evaluation result into output fields (map mode).
pub fn to_output_fields(c: &Computed, ncols: u8) -> (r: Result<Vec<Vec<u8>>, Vec<u8>>)
    ensures
        match r {
            Ok(f) => spec_map_fields(c@, ncols) == Ok::<_, Seq<u8>>(views(f@)),
            Err(e) => spec_map_fields(c@, ncols) == Err::<Seq<Seq<u8>>, _>(e@),
        },
{
    match c {
        Computed::Scalar(v) => match v {
            Scalar::Other(d) => Err(d.clone()),
            _ => {
                let mut out: Vec<Vec<u8>> = Vec::new();
                out.push(scalar_field_text(v));
                assert(views(out@) =~= seq![sval_field_text(v@)]);
                Ok(out)
            },
        },
        Computed::Composite(vals) => {
            let ghost init_rem: int = if ncols == 0 {
                -1
            } else {
                ncols as int
            };
            let ghost svals: Seq<SVal> = vals@.map_values(|s: Scalar| s@);
            let mut out: Vec<Vec<u8>> = Vec::new();
            let mut inserted: u8 = 0;
            let mut j: usize = 0;
            let ghost mut rem: int = init_rem;
            proof {
                assert(views(out@) =~= Seq::<Seq<u8>>::empty());
                assert(svals.skip(0) =~= svals);
                assert forall|t: Seq<Seq<u8>>| #[trigger] (Seq::<Seq<u8>>::empty() + t) =~= t by {}
            }
            while j < vals.len() && (ncols == 0 || inserted < ncols)
                invariant
                    j <= vals@.len(),
                    svals == vals@.map_values(|s: Scalar| s@),
                    init_rem == if ncols == 0 { -1int } else { ncols as int },
                    rem == if ncols == 0 { -1int } else { ncols - inserted },
                    ncols != 0 ==> inserted <= ncols,
                    inserted as int <= j,
                    views(out@).len() == j,
                    spec_composite_fields(svals, init_rem) == match spec_composite_fields(svals.skip(j as int), rem) {
                        Ok(t) => Ok::<Seq<Seq<u8>>, Seq<u8>>(views(out@) + t),
                        Err(e) => Err::<Seq<Seq<u8>>, Seq<u8>>(e),
                    },
                decreases vals@.len() - j,
            {
                let ghost j0 = j as int;
                let ghost prev = views(out@);
                proof {
                    assert(svals[j0] == vals@[j0]@);
                    assert(svals.skip(j0)[0] == svals[j0]);
                    assert(svals.skip(j0).skip(1) =~= svals.skip(j0 + 1));
                }
                match &vals[j] {
                    Scalar::Other(d) => {
                        proof {
                            assert(!sval_supported(svals[j0]));
                        }
                        return Err(d.clone());
                    },
                    v => {
                        out.push(scalar_field_text(v));
                        proof {
                            assert(sval_supported(svals[j0]));
                        }
                    },
                }
                j += 1;
                if ncols > 0 {
                    inserted += 1;
                }
                proof {
                    rem = if ncols == 0 {
                        -1int
                    } else {
                        ncols - inserted
                    };
                    assert(views(out@) =~= prev.push(sval_field_text(svals[j0])));
                    match spec_composite_fields(svals.skip(j as int), rem) {
                        Ok(t) => {
                            assert(prev + (seq![sval_field_text(svals[j0])] + t) =~= views(out@)
                                + t);
                        },
                        Err(_) => {},
                    }
                }
            }
            proof {
                if j == vals@.len() && rem != 0 {
                    assert(svals.skip(j as int) =~= Seq::<SVal>::empty());
                }
            }
            if j == vals.len() && (ncols == 0 || inserted >= ncols) {
                proof {
                    if ncols != 0 {
                        assert(rem == 0);
                    }
                }
                assert(views(out@) + Seq::<Seq<u8>>::empty() =~= views(out@));
                return Ok(out);
            }
            if j == vals.len() {
                // fewer entries than declared columns: right-pad with empty text
                while inserted < ncols
                    invariant
                        inserted <= ncols,
                        ncols > 0,
                        rem == ncols - inserted,
                        spec_composite_fields(svals, init_rem) == match spec_composite_fields(
                            Seq::<SVal>::empty(),
                            rem,
                        ) {
                            Ok(t) => Ok::<Seq<Seq<u8>>, Seq<u8>>(views(out@) + t),
                            Err(e) => Err::<Seq<Seq<u8>>, Seq<u8>>(e),
                        },
                    decreases ncols - inserted,
                {
                    let ghost prev = views(out@);
                    out.push(Vec::new());
                    inserted += 1;
                    proof {
                        rem = rem - 1;
                        assert(views(out@) =~= prev.push(Seq::<u8>::empty()));
                        assert(prev + Seq::new((rem + 1) as nat, |i: int| Seq::<u8>::empty())
                            =~= views(out@) + Seq::new(rem as nat, |i: int| Seq::<u8>::empty()));
                        if rem == 0 {
                            assert(Seq::new(0nat, |i: int| Seq::<u8>::empty())
                                =~= Seq::<Seq<u8>>::empty());
                        }
                    }
                }
                assert(views(out@) + Seq::<Seq<u8>>::empty() =~= views(out@));
                return Ok(out);
            }
            // the bound was reached before the entries ran out: excess ignored
            assert(rem == 0);
            assert(views(out@) + Seq::<Seq<u8>>::empty() =~= views(out@));
            Ok(out)
        },
    }
}

/// The keep/drop decision of one evaluation result in filter mode.  A row
/// whose evaluation failed is always kept; otherwise an empty string, an
/// absent value, a zero integer and a float within machine epsilon of zero
/// drop the row, and every other result keeps it.
pub open spec fn spec_keep_row(r: SRes, had_error: bool) -> bool {
    had_error || match r {
        SRes::Composite(_) => true,
        SRes::Scalar(v) => match v {
            SVal::Str(s) => s.len() > 0,
            SVal::Bool(b) => b,
            SVal::Nil => false,
            SVal::Int(i) => i != 0,
            SVal::Num { nonzero, .. } => nonzero,
            SVal::Other(_) => true,
        },
    }
}

/// Marshals one evaluation result into a filter decision.
pub fn to_filter_decision(c: &Computed, had_error: bool) -> (r: bool)
    ensures
        r == spec_keep_row(c@, had_error),
{
    if had_error {
        return true;
    }
    match c {
        Computed::Composite(_) => true,
        Computed::Scalar(v) => match v {
            Scalar::Str(s) => s.len() > 0,
            Scalar::Bool(b) => *b,
            Scalar::Nil => false,
            Scalar::Int(i) => *i != 0,
            Scalar::Num { nonzero, .. } => *nonzero,
            Scalar::Other(_) => true,
        },
    }
}

/// The diagnostic text of the END phase's result, or the fatal error its
/// kind provokes: a composite result is described as a table.  Floats use
/// their plain display form here.
pub open spec fn spec_end_text(r: SRes) -> Result<Seq<u8>, Seq<u8>> {
    match r {
        SRes::Composite(_) => Err(txt_table()),
        SRes::Scalar(v) => match v {
            SVal::Str(s) => Ok(s),
            SVal::Num { shown, .. } => Ok(shown),
            SVal::Int(i) => Ok(spec_dec_i64(i as int)),
            SVal::Bool(b) => Ok(
                if b {
                    txt_true()
                } else {
                    txt_false()
                },
            ),
            SVal::Nil => Ok(Seq::empty()),
            SVal::Other(d) => Err(d),
        },
    }
}

/// Marshals the END result into the diagnostic line's text.
pub fn to_end_text(c: &Computed) -> (r: Result<Vec<u8>, Vec<u8>>)
    ensures
        match r {
            Ok(t) => spec_end_text(c@) == Ok::<_, Seq<u8>>(t@),
            Err(e) => spec_end_text(c@) == Err::<Seq<u8>, _>(e@),
        },
{
    match c {
        Computed::Composite(_) => {
            let d = vec![116u8, 97u8, 98u8, 108u8, 101u8];
            assert(d@ =~= txt_table());
            Err(d)
        },
        Computed::Scalar(v) => match v {
            Scalar::Str(s) => Ok(s.clone()),
            Scalar::Num { shown, .. } => Ok(shown.clone()),
            Scalar::Int(i) => Ok(i64_to_dec(*i)),
            Scalar::Bool(b) => Ok(
                if *b {
                    true_text()
                } else {
                    false_text()
                },
            ),
            Scalar::Nil => Ok(Vec::new()),
            Scalar::Other(d) => Err(d.clone()),
        },
    }
}

/// That a composite result is cut or padded to the declared column count:
/// with at least one declared column and no unsupported entry, map mode
/// produces exactly that many fields.
pub proof fn lemma_composite_width(vals: Seq<SVal>, ncols: u8)
    requires
        ncols > 0,
        forall|k: int| 0 <= k < vals.len() && k < ncols ==> sval_supported(vals[k]),
    ensures
        spec_map_fields(SRes::Composite(vals), ncols) matches Ok(f) && f.len() == ncols,
{
    lemma_composite_fields_len(vals, ncols as int);
}

proof fn lemma_composite_fields_len(vals: Seq<SVal>, remaining: int)
    requires
        remaining >= 0,
        forall|k: int| 0 <= k < vals.len() && k < remaining ==> sval_supported(vals[k]),
    ensures
        spec_composite_fields(vals, remaining) matches Ok(f) && f.len() == remaining,
    decreases vals.len(),
{
    if remaining == 0 {
    } else if vals.len() == 0 {
    } else {
        assert(sval_supported(vals[0]));
        assert forall|k: int|
            0 <= k < vals.skip(1).len() && k < remaining - 1 implies sval_supported(
            vals.skip(1)[k],
        ) by {
            assert(vals.skip(1)[k] == vals[k + 1]);
        }
        lemma_composite_fields_len(vals.skip(1), remaining - 1);
    }
}

} // verus!
