use vstd::prelude::*;

use crate::model::expression::strings_view;

verus! {

/// One named value slot of a record; a slot may hold several values.
#[derive(Debug, PartialEq)]
pub struct Field {
    pub name: String,
    pub values: Vec<String>,
}

/// One record of a logical source: its fields, looked up by reference.
#[derive(Debug, PartialEq)]
pub struct Record {
    pub fields: Vec<Field>,
}

/// The values of the first field of `fields` at or after `i` named `r`;
/// none if there is no such field.
pub open spec fn raw_values_from(fields: Seq<Field>, r: Seq<char>, i: int) -> Seq<Seq<char>>
    decreases fields.len() - i,
{
    if i < 0 || i >= fields.len() {
        Seq::empty()
    } else if fields[i].name@ == r {
        strings_view(fields[i].values@)
    } else {
        raw_values_from(fields, r, i + 1)
    }
}

/// `vals` without the values listed in `nulls`, order kept.
pub open spec fn drop_nulls(vals: Seq<Seq<char>>, nulls: Seq<Seq<char>>) -> Seq<Seq<char>>
    decreases vals.len(),
{
    if vals.len() == 0 {
        Seq::empty()
    } else {
        let rest = drop_nulls(vals.drop_last(), nulls);
        if nulls.contains(vals.last()) {
            rest
        } else {
            rest.push(vals.last())
        }
    }
}

impl Record {
    /// The values the record holds for reference `r`, as the source gave them.
    pub open spec fn raw_values(&self, r: Seq<char>) -> Seq<Seq<char>> {
        raw_values_from(self.fields@, r, 0)
    }

    /// The values of reference `r` that are not null markers.
    pub open spec fn values(&self, r: Seq<char>, nulls: Seq<Seq<char>>) -> Seq<Seq<char>> {
        drop_nulls(self.raw_values(r), nulls)
    }

    /// The values for `reference`, as the source gave them.
    pub fn get_strings_for(&self, reference: &String) -> (r: Vec<String>)
        ensures
            strings_view(r@) == self.raw_values(reference@),
    {
        let mut i: usize = 0;
        while i < self.fields.len()
            invariant
                0 <= i <= self.fields@.len(),
                raw_values_from(self.fields@, reference@, 0) == raw_values_from(
                    self.fields@,
                    reference@,
                    i as int,
                ),
            decreases self.fields.len() - i,
        {
            if self.fields[i].name == *reference {
                let mut out: Vec<String> = Vec::new();
                let vals = &self.fields[i].values;
                let mut j: usize = 0;
                while j < vals.len()
                    invariant
                        0 <= j <= vals@.len(),
                        out@ == vals@.subrange(0, j as int),
                    decreases vals.len() - j,
                {
                    out.push(vals[j].clone());
                    assert(out@ =~= vals@.subrange(0, j + 1));
                    j = j + 1;
                }
                assert(vals@.subrange(0, vals.len() as int) =~= vals@);
                return out;
            }
            i = i + 1;
        }
        let out: Vec<String> = Vec::new();
        assert(strings_view(out@) =~= Seq::empty());
        out
    }

    /// The values for `reference` that are not null markers, order kept.
    pub fn get_values_for(&self, reference: &String, nulls: &Vec<String>) -> (r: Vec<String>)
        ensures
            strings_view(r@) == self.values(reference@, strings_view(nulls@)),
    {
        let raw = self.get_strings_for(reference);
        let ghost rv = strings_view(raw@);
        let ghost nv = strings_view(nulls@);
        let mut out: Vec<String> = Vec::new();
        let mut i: usize = 0;
        assert(strings_view(out@) =~= drop_nulls(rv.subrange(0, 0), nv));
        while i < raw.len()
            invariant
                0 <= i <= raw@.len(),
                rv == strings_view(raw@),
                nv == strings_view(nulls@),
                strings_view(out@) == drop_nulls(rv.subrange(0, i as int), nv),
            decreases raw.len() - i,
        {
            assert(rv.subrange(0, i + 1).drop_last() =~= rv.subrange(0, i as int));
            let is_null = contains_string(nulls, &raw[i]);
            if !is_null {
                out.push(raw[i].clone());
                assert(strings_view(out@) =~= drop_nulls(rv.subrange(0, i as int), nv).push(
                    raw@[i as int]@,
                ));
            }
            i = i + 1;
        }
        assert(rv.subrange(0, raw.len() as int) =~= rv);
        out
    }
}

/// Whether `v` is among `list`.
pub fn contains_string(list: &Vec<String>, v: &String) -> (r: bool)
    ensures
        r == strings_view(list@).contains(v@),
{
    let mut i: usize = 0;
    while i < list.len()
        invariant
            0 <= i <= list@.len(),
            forall|k: int| 0 <= k < i ==> list@[k]@ != v@,
        decreases list.len() - i,
    {
        if list[i] == *v {
            assert(strings_view(list@)[i as int] == v@);
            return true;
        }
        i = i + 1;
    }
    assert(!strings_view(list@).contains(v@)) by {
        if strings_view(list@).contains(v@) {
            let k = choose|k: int| 0 <= k < list@.len() && strings_view(list@)[k] == v@;
            assert(list@[k]@ == v@);
        }
    }
    false
}

} // verus!
