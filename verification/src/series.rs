//! Typed containers the ingested data lands in: cell values, named
//! series, datasets and per-row slices.

use vstd::prelude::*;

use crate::text;
use vstd::pervasive::VecAdditionalExecFns;

verus! {

/// One data cell, after numeric interpretation.
///
/// A cell that parses as a decimal floating-point number keeps its
/// trimmed text verbatim, so no precision is lost here; consumers
/// convert it to their numeric type.  A cell that does not parse
/// becomes `Missing`, the not-a-number sentinel: one bad cell never
/// discards the rest of its row.
#[derive(Debug, Clone, PartialEq, Eq)]
pub enum Value {
    /// A cell holding a decimal number, kept as its trimmed text.
    Num(String),
    /// A cell that did not parse as a number.
    Missing,
}

/// The mathematical value of a [`Value`].
#[verifier::ext_equal]
pub enum ValueV {
    Num(Seq<char>),
    Missing,
}

impl View for Value {
    type V = ValueV;

    open spec fn view(&self) -> ValueV {
        match self {
            Value::Num(t) => ValueV::Num(t@),
            Value::Missing => ValueV::Missing,
        }
    }
}

/// What a data cell's text denotes: its trimmed text if that is a
/// number, and the missing-value sentinel otherwise.
pub open spec fn spec_cell_value(s: Seq<char>) -> ValueV {
    if text::spec_is_number(text::spec_trim(s)) {
        ValueV::Num(text::spec_trim(s))
    } else {
        ValueV::Missing
    }
}

/// Interprets one data cell: trims it and keeps the text if it is a
/// decimal number, else yields `Missing`.
pub fn parse_cell(s: &str) -> (v: Value)
    ensures
        v@ == spec_cell_value(s@),
{
    let t = text::trim(s);
    if text::is_number(t.as_str()) {
        Value::Num(t)
    } else {
        Value::Missing
    }
}

/// A named, ordered sequence of numeric values.
#[derive(Debug, Clone, PartialEq, Eq)]
pub struct Series {
    pub title: String,
    pub values: Vec<Value>,
}

/// The mathematical value of a [`Series`].
#[verifier::ext_equal]
pub struct SeriesV {
    pub title: Seq<char>,
    pub values: Seq<ValueV>,
}

impl View for Series {
    type V = SeriesV;

    open spec fn view(&self) -> SeriesV {
        SeriesV { title: self.title@, values: self.values@.map_values(|v: Value| v@) }
    }
}

impl Series {
    /// A series with this title and no values yet.
    pub fn with_title(title: &String) -> (s: Series)
        ensures
            s@.title == title@,
            s@.values == Seq::<ValueV>::empty(),
    {
        let s = Series { title: title.clone(), values: Vec::new() };
        proof {
            assert(s@.values =~= Seq::<ValueV>::empty());
        }
        s
    }
}

/// One row of input, typed against a schema: the X cell and the Epoch
/// cell kept as raw text, every other cell interpreted as a number.
#[derive(Debug, Clone, PartialEq, Eq)]
pub struct Slice {
    pub x: Option<String>,
    pub epoch: Option<String>,
    pub y: Vec<Value>,
}

/// The mathematical value of a [`Slice`].
#[verifier::ext_equal]
pub struct SliceV {
    pub x: Option<Seq<char>>,
    pub epoch: Option<Seq<char>>,
    pub y: Seq<ValueV>,
}

impl View for Slice {
    type V = SliceV;

    open spec fn view(&self) -> SliceV {
        SliceV {
            x: match &self.x {
                Some(s) => Some(s@),
                None => None,
            },
            epoch: match &self.epoch {
                Some(s) => Some(s@),
                None => None,
            },
            y: self.y@.map_values(|v: Value| v@),
        }
    }
}

impl Slice {
    /// A slice with no cells yet.
    pub fn empty() -> (s: Slice)
        ensures
            s@ == (SliceV { x: None, epoch: None, y: Seq::empty() }),
    {
        let s = Slice { x: None, epoch: None, y: Vec::new() };
        proof {
            assert(s@.y =~= Seq::<ValueV>::empty());
        }
        s
    }
}

/// A dataset: an optional epoch label, an optional X column with its
/// collected values, and the named series in header order.
#[derive(Debug, Clone, PartialEq, Eq)]
pub struct SeriesSet {
    pub epoch: Option<String>,
    pub x: Option<(String, Vec<String>)>,
    pub y: Vec<Series>,
}

/// The mathematical value of a [`SeriesSet`].
#[verifier::ext_equal]
pub struct SeriesSetV {
    pub epoch: Option<Seq<char>>,
    pub x: Option<(Seq<char>, Seq<Seq<char>>)>,
    pub y: Seq<SeriesV>,
}

impl View for SeriesSet {
    type V = SeriesSetV;

    open spec fn view(&self) -> SeriesSetV {
        SeriesSetV {
            epoch: match &self.epoch {
                Some(s) => Some(s@),
                None => None,
            },
            x: match &self.x {
                Some(p) => Some((p.0@, text::views_of(p.1@))),
                None => None,
            },
            y: self.y@.map_values(|s: Series| s@),
        }
    }
}

/// What appending a row to a dataset yields: the epoch label is taken
/// from the row when the row carries one; the row's X cell, when both
/// the dataset has an X column and the row an X cell, is pushed onto the
/// X values; and the row's values are pushed onto the series pairwise in
/// order, extra values in the row being dropped and series beyond the
/// row's length left unchanged.
pub open spec fn spec_append_slice(d: SeriesSetV, s: SliceV) -> SeriesSetV {
    SeriesSetV {
        epoch: if s.epoch is Some {
            s.epoch
        } else {
            d.epoch
        },
        x: match (d.x, s.x) {
            (Some((t, xs)), Some(v)) => Some((t, xs.push(v))),
            _ => d.x,
        },
        y: Seq::new(
            d.y.len(),
            |i: int|
                if i < s.y.len() {
                    SeriesV { title: d.y[i].title, values: d.y[i].values.push(s.y[i]) }
                } else {
                    d.y[i]
                },
        ),
    }
}

impl SeriesSet {
    /// Appends one row to the dataset, per [`spec_append_slice`].
    pub fn append_slice(&mut self, s: Slice)
        ensures
            final(self)@ == spec_append_slice(old(self)@, s@),
    {
        let ghost d0 = self@;
        let ghost sv = s@;
        let Slice { x: sx, epoch: se, y: sy } = s;
        if let Some(e) = se {
            self.epoch = Some(e);
        }
        if let Some(v) = sx {
            let mut xtmp: Option<(String, Vec<String>)> = None;
            core::mem::swap(&mut self.x, &mut xtmp);
            if let Some(mut xcol) = xtmp {
                proof {
                    text::lemma_views_push(xcol.1@, v);
                }
                xcol.1.push(v);
                self.x = Some(xcol);
            }
        }
        proof {
            assert(self@.epoch == spec_append_slice(d0, sv).epoch);
            assert(self@.x == spec_append_slice(d0, sv).x);
        }
        let mut vals = sy;
        let mut i: usize = 0;
        while i < self.y.len() && i < vals.len()
            invariant
                i <= self.y@.len(),
                i <= vals@.len(),
                self.y@.len() == d0.y.len(),
                vals@.len() == sv.y.len(),
                self@.epoch == spec_append_slice(d0, sv).epoch,
                self@.x == spec_append_slice(d0, sv).x,
                forall|k: int| i <= k < vals@.len() ==> vals@[k]@ == sv.y[k],
                forall|k: int|
                    0 <= k < i ==> self.y@[k]@ == (SeriesV {
                        title: d0.y[k].title,
                        values: d0.y[k].values.push(sv.y[k]),
                    }),
                forall|k: int| i <= k < self.y@.len() ==> self.y@[k]@ == d0.y[k],
            decreases self.y@.len() - i,
        {
            let mut tmp = Series { title: String::new(), values: Vec::new() };
            self.y.set_and_swap(i, &mut tmp);
            let mut vtmp = Value::Missing;
            vals.set_and_swap(i, &mut vtmp);
            let ghost told = tmp@;
            tmp.values.push(vtmp);
            proof {
                assert(tmp@.values =~= told.values.push(sv.y[i as int]));
            }
            self.y.set_and_swap(i, &mut tmp);
            i += 1;
        }
        proof {
            assert(self@.y =~~= spec_append_slice(d0, sv).y);
            assert(self@ =~~= spec_append_slice(d0, sv));
        }
    }
}

} // verus!
