//! Schema: how a header line maps input columns onto the X role, the
//! Epoch role and the data series.

use vstd::prelude::*;

use crate::column::Column;
use crate::series::{Series, SeriesSet, SeriesSetV, Slice, SliceV, Value, spec_cell_value, parse_cell};
use crate::text;

verus! {

/// A header field claimed for the X or Epoch role: its title and its
/// zero-based position in the header.
pub struct ColumnSchema {
    title: String,
    index: usize,
}

impl ColumnSchema {
    pub fn new(title: String, index: usize) -> (c: ColumnSchema)
        ensures
            c@ == (title@, index as int),
    {
        ColumnSchema { title, index }
    }
}

impl View for ColumnSchema {
    type V = (Seq<char>, int);

    closed spec fn view(&self) -> (Seq<char>, int) {
        (self.title@, self.index as int)
    }
}

/// The mathematical value of a [`Schema`]: the claimed X and Epoch
/// columns, and the remaining series titles in header order.
#[verifier::ext_equal]
pub struct SchemaV {
    pub x: Option<(Seq<char>, int)>,
    pub epoch: Option<(Seq<char>, int)>,
    pub titles: Seq<Seq<char>>,
}

/// The schema after the first `n` header fields have been examined in
/// order.  Each field is offered to the X selector first, then to the
/// Epoch selector; a field claimed by neither becomes a series title.
pub open spec fn spec_build(x: Column, epoch: Column, titles: Seq<Seq<char>>, n: int) -> SchemaV
    decreases n,
{
    if n <= 0 {
        SchemaV { x: None, epoch: None, titles: Seq::empty() }
    } else {
        let prev = spec_build(x, epoch, titles, n - 1);
        let t = titles[n - 1];
        if x.spec_matches(t, n - 1) {
            SchemaV { x: Some((t, n - 1)), ..prev }
        } else if epoch.spec_matches(t, n - 1) {
            SchemaV { epoch: Some((t, n - 1)), ..prev }
        } else {
            SchemaV { titles: prev.titles.push(t), ..prev }
        }
    }
}

/// The way input rows are transformed to the internal format: at most
/// one field plays the X role, at most one the Epoch role, and every
/// other field becomes a data series.
pub struct Schema {
    x: Option<ColumnSchema>,
    epoch: Option<ColumnSchema>,
    titles: Vec<String>,
}

impl View for Schema {
    type V = SchemaV;

    closed spec fn view(&self) -> SchemaV {
        SchemaV {
            x: match &self.x {
                Some(c) => Some(c@),
                None => None,
            },
            epoch: match &self.epoch {
                Some(c) => Some(c@),
                None => None,
            },
            titles: text::views_of(self.titles@),
        }
    }
}

impl Schema {
    /// A schema with no roles and no series.
    fn default() -> (s: Schema)
        ensures
            s@ == (SchemaV { x: None, epoch: None, titles: Seq::empty() }),
    {
        let s = Schema { x: None, epoch: None, titles: Vec::new() };
        proof {
            assert(s@.titles =~= Seq::<Seq<char>>::empty());
            assert(s@ =~~= (SchemaV { x: None, epoch: None, titles: Seq::empty() }));
        }
        s
    }

    /// Builds a schema from the X and Epoch selectors and the header
    /// fields, per [`spec_build`].  Any header, the empty one included,
    /// yields a valid schema.
    pub fn new(x: &Column, epoch: &Column, titles: &Vec<String>) -> (s: Schema)
        ensures
            s@ == spec_build(*x, *epoch, text::views_of(titles@), titles@.len() as int),
    {
        let ghost tv = text::views_of(titles@);
        let mut res = Schema::default();
        let mut i: usize = 0;
        while i < titles.len()
            invariant
                i <= titles@.len(),
                tv == text::views_of(titles@),
                tv.len() == titles@.len(),
                res@ == spec_build(*x, *epoch, tv, i as int),
            decreases titles@.len() - i,
        {
            let t = &titles[i];
            proof {
                assert(tv[i as int] == t@);
            }
            if x.matches(t, i) {
                res.x = Some(ColumnSchema::new(t.clone(), i));
                proof {
                    assert(res@ =~~= spec_build(*x, *epoch, tv, i + 1));
                }
            } else if epoch.matches(t, i) {
                res.epoch = Some(ColumnSchema::new(t.clone(), i));
                proof {
                    assert(res@ =~~= spec_build(*x, *epoch, tv, i + 1));
                }
            } else {
                proof {
                    text::lemma_views_push(res.titles@, *t);
                }
                res.titles.push(t.clone());
                proof {
                    assert(res@ =~~= spec_build(*x, *epoch, tv, i + 1));
                }
            }
            i += 1;
        }
        res
    }

    /// The empty dataset a schema gives rise to, per
    /// [`spec_empty_set`]: one empty series per series title, in header
    /// order; an empty X column when the X role was claimed; no epoch
    /// yet — its value is only known once real data arrives.
    pub fn empty_set(&self) -> (d: SeriesSet)
        ensures
            d@ == spec_empty_set(self@),
    {
        let x = match &self.x {
            Some(c) => Some((c.title.clone(), Vec::<String>::new())),
            None => None,
        };
        let mut y: Vec<Series> = Vec::new();
        let mut i: usize = 0;
        while i < self.titles.len()
            invariant
                i <= self.titles@.len(),
                y@.len() == i,
                forall|k: int|
                    0 <= k < i ==> y@[k]@ == (crate::series::SeriesV {
                        title: self.titles@[k]@,
                        values: Seq::empty(),
                    }),
            decreases self.titles@.len() - i,
        {
            y.push(Series::with_title(&self.titles[i]));
            i += 1;
        }
        let d = SeriesSet { epoch: None, x, y };
        proof {
            assert(d@.y =~~= spec_empty_set(self@).y);
            match &d.x {
                Some(p) => {
                    assert(text::views_of(p.1@) =~= Seq::<Seq<char>>::empty());
                },
                None => {},
            }
            assert(d@ =~~= spec_empty_set(self@));
        }
        d
    }

    /// Types one row of input against the schema, per [`spec_slice`]:
    /// the cell at the X position and the cell at the Epoch position are
    /// kept as raw text, every other cell is interpreted as a number,
    /// a cell that fails to parse becoming the missing-value sentinel.
    /// Rows longer or shorter than the header are tolerated cell by
    /// cell.
    pub fn slice(&self, fields: &Vec<String>) -> (r: Slice)
        ensures
            r@ == spec_slice(self@, text::views_of(fields@), fields@.len() as int),
    {
        let ghost fv = text::views_of(fields@);
        let mut res = Slice::empty();
        let mut i: usize = 0;
        while i < fields.len()
            invariant
                i <= fields@.len(),
                fv == text::views_of(fields@),
                fv.len() == fields@.len(),
                res@ == spec_slice(self@, fv, i as int),
            decreases fields@.len() - i,
        {
            let v = &fields[i];
            proof {
                assert(fv[i as int] == v@);
            }
            let x_here = match &self.x {
                Some(c) => c.index == i,
                None => false,
            };
            let epoch_here = match &self.epoch {
                Some(c) => c.index == i,
                None => false,
            };
            if x_here {
                res.x = Some(v.clone());
                proof {
                    assert(res@ =~~= spec_slice(self@, fv, i + 1));
                }
            } else if epoch_here {
                res.epoch = Some(v.clone());
                proof {
                    assert(res@ =~~= spec_slice(self@, fv, i + 1));
                }
            } else {
                let cell = parse_cell(v.as_str());
                let ghost y0 = res.y@;
                res.y.push(cell);
                proof {
                    assert(res.y@.map_values(|c: Value| c@) =~= y0.map_values(|c: Value| c@)
                        .push(spec_cell_value(v@)));
                    assert(res@ =~~= spec_slice(self@, fv, i + 1));
                }
            }
            i += 1;
        }
        res
    }
}

/// The empty dataset of a schema: no epoch, an empty X column iff the
/// X role was claimed, and one empty series per title, in order.
pub open spec fn spec_empty_set(s: SchemaV) -> SeriesSetV {
    SeriesSetV {
        epoch: None,
        x: match s.x {
            Some((t, _)) => Some((t, Seq::empty())),
            None => None,
        },
        y: s.titles.map_values(|t: Seq<char>| crate::series::SeriesV { title: t, values: Seq::empty() }),
    }
}

/// The row record after the first `n` cells of a row have been examined
/// in order: the cell at the schema's X position is kept raw as the X
/// value, the cell at the Epoch position raw as the epoch value, and
/// every other cell is interpreted as a number.
pub open spec fn spec_slice(s: SchemaV, fields: Seq<Seq<char>>, n: int) -> SliceV
    decreases n,
{
    if n <= 0 {
        SliceV { x: None, epoch: None, y: Seq::empty() }
    } else {
        let prev = spec_slice(s, fields, n - 1);
        let v = fields[n - 1];
        if s.x is Some && (s.x->0).1 == n - 1 {
            SliceV { x: Some(v), ..prev }
        } else if s.epoch is Some && (s.epoch->0).1 == n - 1 {
            SliceV { epoch: Some(v), ..prev }
        } else {
            SliceV { y: prev.y.push(spec_cell_value(v)), ..prev }
        }
    }
}

/// The schema invariant: a claimed role names a real header field that
/// its selector matched; a field claimed by X is never also claimed by
/// Epoch, the X selector being tried first on ties; and the two roles
/// never share a position.
pub proof fn lemma_schema_roles(x: Column, epoch: Column, titles: Seq<Seq<char>>, n: int)
    requires
        n <= titles.len(),
    ensures
        spec_build(x, epoch, titles, n).x matches Some((t, i)) ==> 0 <= i < n && titles[i] == t
            && x.spec_matches(t, i),
        spec_build(x, epoch, titles, n).epoch matches Some((t, i)) ==> 0 <= i < n && titles[i]
            == t && epoch.spec_matches(t, i) && !x.spec_matches(t, i),
        spec_build(x, epoch, titles, n).x matches Some((xt, xi)) ==> (spec_build(
            x,
            epoch,
            titles,
            n,
        ).epoch matches Some((et, ei)) ==> xi != ei),
    decreases n,
{
    if n > 0 {
        lemma_schema_roles(x, epoch, titles, n - 1);
    }
}

} // verus!
