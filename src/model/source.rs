use vstd::prelude::*;

use super::expression::{expression_references, strings_view};
use super::maps::{
    child_references, ObjectMap, PredicateMap, PredicateObjectMap, ReferencingObjectMap, SubjectMap,
};
use crate::record::contains_string;

verus! {

/// A configured source of records.
pub trait LogicalSource {
    /// The values that stand for "no value" in this source.
    spec fn null_markers(&self) -> Seq<Seq<char>>;

    fn get_nulls(&self) -> (r: Vec<String>)
        ensures
            strings_view(r@) == self.null_markers(),
    ;
}

/// The producer of triples for one logical source: one subject map and the
/// predicate-object maps applied to each record.
#[derive(Debug, PartialEq)]
pub struct TriplesMap {
    pub uri: String,
    pub logical_source: LogicalSourceType,
    pub subject_map: SubjectMap,
    pub predicate_object_maps: Vec<PredicateObjectMap>,
}

#[derive(Debug, PartialEq)]
pub enum LogicalSourceType {
    File(FileLogicalSource),
    Database(DatabaseLogicalSource),
}

impl LogicalSourceType {
    pub open spec fn nulls_spec(&self) -> Seq<Seq<char>> {
        match self {
            LogicalSourceType::File(f) => strings_view(f.nulls@),
            LogicalSourceType::Database(d) => strings_view(d.nulls@),
        }
    }
}

impl LogicalSource for LogicalSourceType {
    open spec fn null_markers(&self) -> Seq<Seq<char>> {
        self.nulls_spec()
    }

    fn get_nulls(&self) -> (r: Vec<String>) {
        match self {
            LogicalSourceType::File(file_source) => file_source.get_nulls(),
            LogicalSourceType::Database(db_source) => db_source.get_nulls(),
        }
    }
}

fn clone_strings(v: &Vec<String>) -> (r: Vec<String>)
    ensures
        r@ == v@,
{
    let mut r: Vec<String> = Vec::new();
    let mut i: usize = 0;
    while i < v.len()
        invariant
            0 <= i <= v.len(),
            r@ == v@.subrange(0, i as int),
        decreases v.len() - i,
    {
        r.push(v[i].clone());
        assert(r@ =~= v@.subrange(0, i + 1));
        i = i + 1;
    }
    assert(v@.subrange(0, v.len() as int) =~= v@);
    r
}

impl TriplesMap {
    pub fn new(
        uri: String,
        logical_source: LogicalSourceType,
        subject_map: SubjectMap,
        predicate_object_maps: Vec<PredicateObjectMap>,
    ) -> (r: Self)
        ensures
            r.uri == uri,
            r.logical_source == logical_source,
            r.subject_map == subject_map,
            r.predicate_object_maps == predicate_object_maps,
    {
        TriplesMap { uri, logical_source, subject_map, predicate_object_maps }
    }

    /// The indices of the predicate-object maps that hold a join.
    pub fn joins(&self) -> (r: Vec<usize>)
        ensures
            forall|k: int|
                0 <= k < r@.len() ==> r@[k] < self.predicate_object_maps@.len()
                    && self.predicate_object_maps@[r@[k] as int].ref_object_maps@.len() > 0,
            forall|j: int|
                0 <= j < self.predicate_object_maps@.len()
                    && self.predicate_object_maps@[j].ref_object_maps@.len() > 0 ==> r@.contains(
                    j as usize,
                ),
            forall|a: int, b: int| 0 <= a < b < r@.len() ==> r@[a] < r@[b],
    {
        let mut r: Vec<usize> = Vec::new();
        let mut i: usize = 0;
        while i < self.predicate_object_maps.len()
            invariant
                0 <= i <= self.predicate_object_maps@.len(),
                forall|k: int|
                    0 <= k < r@.len() ==> r@[k] < i
                        && self.predicate_object_maps@[r@[k] as int].ref_object_maps@.len() > 0,
                forall|j: int|
                    0 <= j < i && self.predicate_object_maps@[j].ref_object_maps@.len() > 0
                        ==> r@.contains(j as usize),
                forall|a: int, b: int| 0 <= a < b < r@.len() ==> r@[a] < r@[b],
            decreases self.predicate_object_maps.len() - i,
        {
            if self.predicate_object_maps[i].ref_object_maps.len() > 0 {
                let ghost before = r@;
                r.push(i);
                assert(r@[r@.len() - 1] == i);
                assert forall|x: usize| before.contains(x) implies r@.contains(x) by {
                    let k = choose|k: int| 0 <= k < before.len() && before[k] == x;
                    assert(r@[k] == x);
                }
            }
            i = i + 1;
        }
        r
    }
}

/// A logical source read from a file.
#[derive(Debug, PartialEq)]
pub struct FileLogicalSource {
    pub source: String,
    pub reference_formulation: Option<String>,
    pub iterator: Option<String>,
    pub nulls: Vec<String>,
}

impl LogicalSource for FileLogicalSource {
    open spec fn null_markers(&self) -> Seq<Seq<char>> {
        strings_view(self.nulls@)
    }

    fn get_nulls(&self) -> (r: Vec<String>) {
        clone_strings(&self.nulls)
    }
}

/// A logical source read from a database table or query.
#[derive(Debug, PartialEq)]
pub struct DatabaseLogicalSource {
    pub source: String,
    pub query: Option<String>,
    pub nulls: Vec<String>,
}

impl LogicalSource for DatabaseLogicalSource {
    open spec fn null_markers(&self) -> Seq<Seq<char>> {
        strings_view(self.nulls@)
    }

    fn get_nulls(&self) -> (r: Vec<String>) {
        clone_strings(&self.nulls)
    }
}

/// A reference without its leading `$` and `.` characters.
pub open spec fn trim_markers(r: Seq<char>) -> Seq<char>
    decreases r.len(),
{
    if r.len() > 0 && (r[0] == '$' || r[0] == '.') {
        trim_markers(r.drop_first())
    } else {
        r
    }
}

pub open spec fn rom_refs(roms: Seq<ReferencingObjectMap>) -> Seq<Seq<char>>
    decreases roms.len(),
{
    if roms.len() == 0 {
        Seq::empty()
    } else {
        rom_refs(roms.drop_last()) + child_references(roms.last().join_conditions@)
    }
}

pub open spec fn om_refs(oms: Seq<ObjectMap>) -> Seq<Seq<char>>
    decreases oms.len(),
{
    if oms.len() == 0 {
        Seq::empty()
    } else {
        om_refs(oms.drop_last()) + expression_references(oms.last().expression)
    }
}

pub open spec fn pm_refs(pms: Seq<PredicateMap>) -> Seq<Seq<char>>
    decreases pms.len(),
{
    if pms.len() == 0 {
        Seq::empty()
    } else {
        pm_refs(pms.drop_last()) + expression_references(pms.last().expression)
    }
}

pub open spec fn poms_refs(poms: Seq<PredicateObjectMap>) -> Seq<Seq<char>>
    decreases poms.len(),
{
    if poms.len() == 0 {
        Seq::empty()
    } else {
        let pom = poms.last();
        poms_refs(poms.drop_last()) + rom_refs(pom.ref_object_maps@) + om_refs(pom.object_maps@)
            + pm_refs(pom.predicate_maps@)
    }
}

impl TriplesMap {
    /// The references a triples map reads: those of its subject map, join
    /// conditions (child side), object maps and predicate maps.
    pub open spec fn all_references(&self) -> Seq<Seq<char>> {
        expression_references(self.subject_map.expression) + poms_refs(self.predicate_object_maps@)
    }

    /// The fields the triples map reads from its records: every reference
    /// it holds, without leading `$` and `.`, each once.
    pub fn get_all_reference_fields(&self) -> (r: Vec<String>)
        ensures
            strings_view(r@).no_duplicates(),
            forall|x: Seq<char>|
                strings_view(r@).contains(x) <==> exists|i: int|
                    0 <= i < self.all_references().len() && trim_markers(
                        #[trigger] self.all_references()[i],
                    ) == x,
    {
        let mut raw = self.subject_map.expression.references();
        let poms = &self.predicate_object_maps;
        let ghost start = strings_view(raw@);
        let mut k: usize = 0;
        assert(poms@.subrange(0, 0) =~= Seq::<PredicateObjectMap>::empty());
        assert(start =~= start + poms_refs(Seq::<PredicateObjectMap>::empty()));
        while k < poms.len()
            invariant
                0 <= k <= poms@.len(),
                start == expression_references(self.subject_map.expression),
                poms == self.predicate_object_maps,
                strings_view(raw@) == start + poms_refs(poms@.subrange(0, k as int)),
            decreases poms.len() - k,
        {
            assert(poms@.subrange(0, k + 1).drop_last() =~= poms@.subrange(0, k as int));
            let pom = &poms[k];
            let ghost before = strings_view(raw@);
            let mut part = rom_references(&pom.ref_object_maps);
            raw.append(&mut part);
            let mut part = om_references(&pom.object_maps);
            raw.append(&mut part);
            let mut part = pm_references(&pom.predicate_maps);
            raw.append(&mut part);
            assert(strings_view(raw@) =~= before + rom_refs(pom.ref_object_maps@) + om_refs(
                pom.object_maps@,
            ) + pm_refs(pom.predicate_maps@));
            k = k + 1;
        }
        assert(poms@.subrange(0, poms.len() as int) =~= poms@);
        let ghost all = strings_view(raw@);
        assert(all == self.all_references());
        let mut out: Vec<String> = Vec::new();
        let mut i: usize = 0;
        while i < raw.len()
            invariant
                0 <= i <= raw@.len(),
                all == strings_view(raw@),
                strings_view(out@).no_duplicates(),
                forall|x: Seq<char>|
                    strings_view(out@).contains(x) <==> exists|j: int|
                        0 <= j < i && trim_markers(#[trigger] all[j]) == x,
            decreases raw.len() - i,
        {
            let t = trim_reference(&raw[i]);
            let ghost before = strings_view(out@);
            if !contains_string(&out, &t) {
                out.push(t);
                assert(strings_view(out@) =~= before.push(t@));
            }
            assert forall|x: Seq<char>|
                strings_view(out@).contains(x) <==> exists|j: int|
                    0 <= j < i + 1 && trim_markers(#[trigger] all[j]) == x by {
                if strings_view(out@).contains(x) && !before.contains(x) {
                    assert(all[i as int] == raw@[i as int]@);
                    let m = choose|m: int| 0 <= m < strings_view(out@).len() && strings_view(out@)[m] == x;
                    if m < before.len() {
                        assert(before[m] == x);
                    }
                    assert(x == t@);
                    assert(trim_markers(all[i as int]) == x);
                }
                if strings_view(out@).contains(x) && before.contains(x) {
                    let j = choose|j: int| 0 <= j < i && trim_markers(#[trigger] all[j]) == x;
                    assert(0 <= j < i + 1);
                }
                if exists|j: int| 0 <= j < i + 1 && trim_markers(#[trigger] all[j]) == x {
                    let j = choose|j: int| 0 <= j < i + 1 && trim_markers(#[trigger] all[j]) == x;
                    if j == i {
                        assert(all[i as int] == raw@[i as int]@);
                        if before.contains(x) {
                            let m = choose|m: int| 0 <= m < before.len() && before[m] == x;
                            assert(strings_view(out@)[m] == x);
                        } else {
                            assert(strings_view(out@)[before.len() as int] == x);
                        }
                    } else {
                        assert(0 <= j < i && trim_markers(all[j]) == x);
                        assert(before.contains(x));
                        let m = choose|m: int| 0 <= m < before.len() && before[m] == x;
                        assert(strings_view(out@)[m] == x);
                    }
                }
            }
            i = i + 1;
        }
        out
    }
}

fn rom_references(roms: &Vec<ReferencingObjectMap>) -> (r: Vec<String>)
    ensures
        strings_view(r@) == rom_refs(roms@),
{
    let mut out: Vec<String> = Vec::new();
    let mut i: usize = 0;
    assert(strings_view(out@) =~= rom_refs(roms@.subrange(0, 0)));
    while i < roms.len()
        invariant
            0 <= i <= roms@.len(),
            strings_view(out@) == rom_refs(roms@.subrange(0, i as int)),
        decreases roms.len() - i,
    {
        assert(roms@.subrange(0, i + 1).drop_last() =~= roms@.subrange(0, i as int));
        let ghost before = strings_view(out@);
        let mut part = roms[i].get_references();
        out.append(&mut part);
        assert(strings_view(out@) =~= before + child_references(roms@[i as int].join_conditions@));
        i = i + 1;
    }
    assert(roms@.subrange(0, roms.len() as int) =~= roms@);
    out
}

fn om_references(oms: &Vec<ObjectMap>) -> (r: Vec<String>)
    ensures
        strings_view(r@) == om_refs(oms@),
{
    let mut out: Vec<String> = Vec::new();
    let mut i: usize = 0;
    assert(strings_view(out@) =~= om_refs(oms@.subrange(0, 0)));
    while i < oms.len()
        invariant
            0 <= i <= oms@.len(),
            strings_view(out@) == om_refs(oms@.subrange(0, i as int)),
        decreases oms.len() - i,
    {
        assert(oms@.subrange(0, i + 1).drop_last() =~= oms@.subrange(0, i as int));
        let ghost before = strings_view(out@);
        let mut part = oms[i].expression.references();
        out.append(&mut part);
        assert(strings_view(out@) =~= before + expression_references(oms@[i as int].expression));
        i = i + 1;
    }
    assert(oms@.subrange(0, oms.len() as int) =~= oms@);
    out
}

fn pm_references(pms: &Vec<PredicateMap>) -> (r: Vec<String>)
    ensures
        strings_view(r@) == pm_refs(pms@),
{
    let mut out: Vec<String> = Vec::new();
    let mut i: usize = 0;
    assert(strings_view(out@) =~= pm_refs(pms@.subrange(0, 0)));
    while i < pms.len()
        invariant
            0 <= i <= pms@.len(),
            strings_view(out@) == pm_refs(pms@.subrange(0, i as int)),
        decreases pms.len() - i,
    {
        assert(pms@.subrange(0, i + 1).drop_last() =~= pms@.subrange(0, i as int));
        let ghost before = strings_view(out@);
        let mut part = pms[i].expression.references();
        out.append(&mut part);
        assert(strings_view(out@) =~= before + expression_references(pms@[i as int].expression));
        i = i + 1;
    }
    assert(pms@.subrange(0, pms.len() as int) =~= pms@);
    out
}

/// A reference without its leading `$` and `.` characters.
pub fn trim_reference(r: &String) -> (t: String)
    ensures
        t@ == trim_markers(r@),
{
    let s = r.as_str();
    let n = s.unicode_len();
    let mut i: usize = 0;
    assert(r@.subrange(0, n as int) =~= r@);
    while i < n
        invariant
            0 <= i <= n,
            n == r@.len(),
            s@ == r@,
            trim_markers(r@) == trim_markers(r@.subrange(i as int, n as int)),
        decreases n - i,
    {
        let c = s.get_char(i);
        if c != '$' && c != '.' {
            assert(r@.subrange(i as int, n as int)[0] == c);
            return String::from_str(s.substring_char(i, n));
        }
        assert(r@.subrange(i as int, n as int)[0] == c);
        assert(r@.subrange(i as int, n as int).drop_first() =~= r@.subrange(i + 1, n as int));
        i = i + 1;
    }
    assert(r@.subrange(n as int, n as int).len() == 0);
    String::new()
}

} // verus!
