//! The value model: a recursive tagged union for parsed document content,
//! together with its mathematical model and the merge algorithm.

use vstd::prelude::*;

verus! {

use crate::DataResolverError;
use crate::SpecErr;

/// Parsed document content.  Numbers are carried in their textual form, so
/// the merge rules can compare kinds without interpreting the digits.
/// Mapping entries keep insertion order; lookups take the first matching key.
#[derive(Debug, PartialEq)]
pub enum DataValue {
    Null,
    Bool(bool),
    Number(String),
    Text(String),
    Sequence(Vec<DataValue>),
    Mapping(Vec<(String, DataValue)>),
}

/// The mathematical model of a [`DataValue`]: the same tree with every string
/// replaced by its character sequence.
#[verifier::ext_equal]
pub enum SpecValue {
    Null,
    Bool(bool),
    Number(Seq<char>),
    Text(Seq<char>),
    Sequence(Seq<SpecValue>),
    Mapping(Seq<(Seq<char>, SpecValue)>),
}

pub open spec fn model_of(v: DataValue) -> SpecValue
    decreases v,
{
    match v {
        DataValue::Null => SpecValue::Null,
        DataValue::Bool(b) => SpecValue::Bool(b),
        DataValue::Number(s) => SpecValue::Number(s@),
        DataValue::Text(s) => SpecValue::Text(s@),
        DataValue::Sequence(items) => SpecValue::Sequence(models_of_seq(items@)),
        DataValue::Mapping(entries) => SpecValue::Mapping(models_of_entries(entries@)),
    }
}

pub open spec fn models_of_seq(items: Seq<DataValue>) -> Seq<SpecValue>
    decreases items,
{
    if items.len() == 0 {
        Seq::empty()
    } else {
        models_of_seq(items.drop_last()).push(model_of(items.last()))
    }
}

pub open spec fn models_of_entries(entries: Seq<(String, DataValue)>) -> Seq<(Seq<char>, SpecValue)>
    decreases entries,
{
    if entries.len() == 0 {
        Seq::empty()
    } else {
        models_of_entries(entries.drop_last()).push(
            (entries.last().0@, model_of(entries.last().1)),
        )
    }
}

impl View for DataValue {
    type V = SpecValue;

    open spec fn view(&self) -> SpecValue {
        model_of(*self)
    }
}

/// Index of the first entry whose key is `k`, or `-1` if no entry has it.
pub open spec fn spec_key_index(entries: Seq<(Seq<char>, SpecValue)>, k: Seq<char>) -> int
    decreases entries,
{
    if entries.len() == 0 {
        -1
    } else if entries.first().0 == k {
        0
    } else {
        let r = spec_key_index(entries.drop_first(), k);
        if r < 0 {
            -1
        } else {
            r + 1
        }
    }
}

/// The first index holding key `k` is pinned by exhibiting it and ruling out
/// earlier occurrences.
pub proof fn lemma_key_index_at(entries: Seq<(Seq<char>, SpecValue)>, k: Seq<char>, j: int)
    requires
        0 <= j < entries.len(),
        entries[j].0 == k,
        forall|i: int| 0 <= i < j ==> (#[trigger] entries[i]).0 != k,
    ensures
        spec_key_index(entries, k) == j,
    decreases entries,
{
    if j > 0 {
        assert(forall|i: int| 1 <= i < entries.len() ==> #[trigger] entries.drop_first()[i - 1]
            == entries[i]);
        lemma_key_index_at(entries.drop_first(), k, j - 1);
    }
}

pub proof fn lemma_key_index_none(entries: Seq<(Seq<char>, SpecValue)>, k: Seq<char>)
    requires
        forall|i: int| 0 <= i < entries.len() ==> (#[trigger] entries[i]).0 != k,
    ensures
        spec_key_index(entries, k) == -1,
    decreases entries,
{
    if entries.len() > 0 {
        assert(forall|i: int| 1 <= i < entries.len() ==> #[trigger] entries.drop_first()[i - 1]
            == entries[i]);
        lemma_key_index_none(entries.drop_first(), k);
    }
}

/// The merge rules, stated over models.  An `Err` carries the two sub-values
/// whose kinds clashed.
pub open spec fn spec_merge(dst: SpecValue, src: SpecValue) -> Result<
    SpecValue,
    (SpecValue, SpecValue),
>
    decreases src,
{
    match src {
        SpecValue::Null => Ok(dst),
        _ => match (dst, src) {
            (SpecValue::Null, s) => Ok(s),
            (SpecValue::Bool(_), SpecValue::Bool(b)) => Ok(SpecValue::Bool(b)),
            (SpecValue::Number(_), SpecValue::Number(n)) => Ok(SpecValue::Number(n)),
            (SpecValue::Text(_), SpecValue::Text(t)) => Ok(SpecValue::Text(t)),
            (SpecValue::Sequence(xs), SpecValue::Sequence(ys)) => Ok(
                SpecValue::Sequence(xs + ys),
            ),
            (SpecValue::Mapping(es), SpecValue::Mapping(fs)) => match spec_merge_entries(es, fs) {
                Ok(gs) => Ok(SpecValue::Mapping(gs)),
                Err(p) => Err(p),
            },
            (d, s) => Err((d, s)),
        },
    }
}

/// Merge mapping entries: each source entry merges into the first destination
/// entry with the same key, or is appended when the key is new.
pub open spec fn spec_merge_entries(
    dst: Seq<(Seq<char>, SpecValue)>,
    src: Seq<(Seq<char>, SpecValue)>,
) -> Result<Seq<(Seq<char>, SpecValue)>, (SpecValue, SpecValue)>
    decreases src,
{
    if src.len() == 0 {
        Ok(dst)
    } else {
        let k = src.first().0;
        let v = src.first().1;
        let j = spec_key_index(dst, k);
        if j < 0 {
            spec_merge_entries(dst.push((k, v)), src.drop_first())
        } else {
            match spec_merge(dst[j].1, v) {
                Ok(m) => spec_merge_entries(dst.update(j, (dst[j].0, m)), src.drop_first()),
                Err(p) => Err(p),
            }
        }
    }
}

pub open spec fn same_scalar_kind(a: SpecValue, b: SpecValue) -> bool {
    ||| (a is Bool && b is Bool)
    ||| (a is Number && b is Number)
    ||| (a is Text && b is Text)
}

/// Law: merging `Null` in either direction leaves the value unchanged —
/// absence never overrides presence, and presence always fills absence.
pub proof fn lemma_merge_null(v: SpecValue)
    ensures
        spec_merge(v, SpecValue::Null) == Ok::<SpecValue, (SpecValue, SpecValue)>(v),
        spec_merge(SpecValue::Null, v) == Ok::<SpecValue, (SpecValue, SpecValue)>(v),
{
}

/// Law: between scalars of the same kind, the merged-in value wins.
pub proof fn lemma_merge_scalar_override(a: SpecValue, b: SpecValue)
    requires
        same_scalar_kind(a, b),
    ensures
        spec_merge(a, b) == Ok::<SpecValue, (SpecValue, SpecValue)>(b),
{
}

/// Law: merging two sequences concatenates them, destination first; order is
/// preserved and the lengths add.
pub proof fn lemma_merge_sequence_concat(xs: Seq<SpecValue>, ys: Seq<SpecValue>)
    ensures
        spec_merge(SpecValue::Sequence(xs), SpecValue::Sequence(ys))
            == Ok::<SpecValue, (SpecValue, SpecValue)>(SpecValue::Sequence(xs + ys)),
        (xs + ys).len() == xs.len() + ys.len(),
        forall|i: int| 0 <= i < xs.len() ==> (xs + ys)[i] == xs[i],
        forall|i: int| 0 <= i < ys.len() ==> (xs + ys)[xs.len() + i] == ys[i],
{
}

pub proof fn lemma_models_of_seq(items: Seq<DataValue>)
    ensures
        models_of_seq(items).len() == items.len(),
        forall|i: int| 0 <= i < items.len() ==> #[trigger] models_of_seq(items)[i]
            == model_of(items[i]),
    decreases items,
{
    if items.len() > 0 {
        lemma_models_of_seq(items.drop_last());
        assert forall|i: int| 0 <= i < items.len() implies #[trigger] models_of_seq(items)[i]
            == model_of(items[i]) by {
            if i < items.len() - 1 {
                assert(items.drop_last()[i] == items[i]);
                assert(models_of_seq(items)[i] == models_of_seq(items.drop_last())[i]);
            }
        }
    }
}

pub proof fn lemma_models_of_entries(entries: Seq<(String, DataValue)>)
    ensures
        models_of_entries(entries).len() == entries.len(),
        forall|i: int| 0 <= i < entries.len() ==> #[trigger] models_of_entries(entries)[i]
            == (entries[i].0@, model_of(entries[i].1)),
    decreases entries,
{
    if entries.len() > 0 {
        lemma_models_of_entries(entries.drop_last());
        assert forall|i: int| 0 <= i < entries.len() implies #[trigger] models_of_entries(
            entries,
        )[i] == (entries[i].0@, model_of(entries[i].1)) by {
            if i < entries.len() - 1 {
                assert(entries.drop_last()[i] == entries[i]);
                assert(models_of_entries(entries)[i] == models_of_entries(entries.drop_last())[i]);
            }
        }
    }
}


pub proof fn lemma_models_of_seq_concat(a: Seq<DataValue>, b: Seq<DataValue>)
    ensures
        models_of_seq(a + b) == models_of_seq(a) + models_of_seq(b),
{
    lemma_models_of_seq(a);
    lemma_models_of_seq(b);
    lemma_models_of_seq(a + b);
    assert(models_of_seq(a + b) =~= models_of_seq(a) + models_of_seq(b));
}

pub proof fn lemma_entry_models_push(s: Seq<(String, DataValue)>, e: (String, DataValue))
    ensures
        models_of_entries(s.push(e)) == models_of_entries(s).push((e.0@, model_of(e.1))),
{
    assert(s.push(e).drop_last() =~= s);
    assert(s.push(e).last() == e);
}

pub proof fn lemma_entry_models_update(s: Seq<(String, DataValue)>, j: int, e: (String, DataValue))
    requires
        0 <= j < s.len(),
    ensures
        models_of_entries(s.update(j, e)) == models_of_entries(s).update(
            j,
            (e.0@, model_of(e.1)),
        ),
{
    lemma_models_of_entries(s);
    lemma_models_of_entries(s.update(j, e));
    assert(models_of_entries(s.update(j, e)) =~= models_of_entries(s).update(
        j,
        (e.0@, model_of(e.1)),
    ));
}

/// A value models to `Null` exactly when it is `Null`.
pub proof fn lemma_model_null_iff(v: DataValue)
    ensures
        (model_of(v) is Null) <==> (v is Null),
{
    match v {
        DataValue::Null => {
        },
        DataValue::Bool(_) => {
        },
        DataValue::Number(_) => {
        },
        DataValue::Text(_) => {
        },
        DataValue::Sequence(_) => {
        },
        DataValue::Mapping(_) => {
        },
    }
}

pub proof fn lemma_remove_insert_is_update<A>(s: Seq<A>, j: int, x: A)
    requires
        0 <= j < s.len(),
    ensures
        s.remove(j).insert(j, x) == s.update(j, x),
{
    assert(s.remove(j).insert(j, x) =~= s.update(j, x));
}

impl Clone for DataValue {
    /// A structural copy: the clone has the same model as the original.
    fn clone(&self) -> (res: Self)
        ensures
            res@ == self@,
        decreases self,
    {
        match self {
            DataValue::Null => DataValue::Null,
            DataValue::Bool(b) => DataValue::Bool(*b),
            DataValue::Number(s) => DataValue::Number(s.clone()),
            DataValue::Text(s) => DataValue::Text(s.clone()),
            DataValue::Sequence(items) => DataValue::Sequence(clone_values(items)),
            DataValue::Mapping(entries) => DataValue::Mapping(clone_entries(entries)),
        }
    }
}

fn clone_values(items: &Vec<DataValue>) -> (r: Vec<DataValue>)
    ensures
        models_of_seq(r@) == models_of_seq(items@),
    decreases items,
{
    let mut r: Vec<DataValue> = Vec::new();
    let mut i: usize = 0;
    while i < items.len()
        invariant
            i <= items@.len(),
            r@.len() == i,
            forall|j: int| 0 <= j < i ==> model_of(#[trigger] r@[j]) == model_of(items@[j]),
        decreases items@.len() - i,
    {
        r.push(items[i].clone());
        i = i + 1;
    }
    proof {
        lemma_models_of_seq(r@);
        lemma_models_of_seq(items@);
        assert(models_of_seq(r@) =~= models_of_seq(items@));
    }
    r
}

fn clone_entries(entries: &Vec<(String, DataValue)>) -> (r: Vec<(String, DataValue)>)
    ensures
        models_of_entries(r@) == models_of_entries(entries@),
    decreases entries,
{
    let mut r: Vec<(String, DataValue)> = Vec::new();
    let mut i: usize = 0;
    while i < entries.len()
        invariant
            i <= entries@.len(),
            r@.len() == i,
            forall|j: int| 0 <= j < i ==> (#[trigger] r@[j]).0@ == entries@[j].0@
                && model_of(r@[j].1) == model_of(entries@[j].1),
        decreases entries@.len() - i,
    {
        r.push((entries[i].0.clone(), entries[i].1.clone()));
        i = i + 1;
    }
    proof {
        lemma_models_of_entries(r@);
        lemma_models_of_entries(entries@);
        assert(models_of_entries(r@) =~= models_of_entries(entries@));
    }
    r
}

/// Index of the first entry whose key equals `key`, if any.
pub(crate) fn find_key(entries: &Vec<(String, DataValue)>, key: &String) -> (r: Option<usize>)
    ensures
        match r {
            Some(j) => j < entries@.len() && spec_key_index(models_of_entries(entries@), key@)
                == j as int,
            None => spec_key_index(models_of_entries(entries@), key@) == -1,
        },
{
    proof {
        lemma_models_of_entries(entries@);
    }
    let mut i: usize = 0;
    while i < entries.len()
        invariant
            i <= entries@.len(),
            forall|j: int| 0 <= j < i ==> (#[trigger] models_of_entries(entries@)[j]).0 != key@,
            models_of_entries(entries@).len() == entries@.len(),
            forall|j: int| 0 <= j < entries@.len() ==> #[trigger] models_of_entries(entries@)[j]
                == (entries@[j].0@, model_of(entries@[j].1)),
        decreases entries@.len() - i,
    {
        if entries[i].0 == *key {
            proof {
                lemma_key_index_at(models_of_entries(entries@), key@, i as int);
            }
            return Some(i);
        }
        i = i + 1;
    }
    proof {
        lemma_key_index_none(models_of_entries(entries@), key@);
    }
    None
}

/// Whether `r` is exactly the outcome that the merge rules prescribe for
/// `dst` and `src`.
pub open spec fn merge_outcome_matches(
    dst: SpecValue,
    src: SpecValue,
    r: Result<DataValue, DataResolverError>,
) -> bool {
    match spec_merge(dst, src) {
        Ok(m) => r matches Ok(v) && v@ == m,
        Err((a, b)) => r matches Err(e) && e@ == SpecErr::IncompatibleMerge(a, b),
    }
}

fn merge_vals(dst: &DataValue, src: &DataValue) -> (r: Result<DataValue, DataResolverError>)
    ensures
        merge_outcome_matches(dst@, src@, r),
    decreases src,
{
    match (dst, src) {
        (d, DataValue::Null) => Ok(d.clone()),
        (DataValue::Null, s) => Ok(s.clone()),
        (DataValue::Bool(_), DataValue::Bool(b)) => Ok(DataValue::Bool(*b)),
        (DataValue::Number(_), DataValue::Number(n)) => Ok(DataValue::Number(n.clone())),
        (DataValue::Text(_), DataValue::Text(t)) => Ok(DataValue::Text(t.clone())),
        (DataValue::Sequence(xs), DataValue::Sequence(ys)) => {
            let mut out = clone_values(xs);
            let mut more = clone_values(ys);
            let ghost out0 = out@;
            let ghost more0 = more@;
            out.append(&mut more);
            proof {
                lemma_models_of_seq_concat(out0, more0);
            }
            Ok(DataValue::Sequence(out))
        },
        (DataValue::Mapping(es), DataValue::Mapping(fs)) => {
            match merge_entry_vecs(es, fs) {
                Ok(out) => Ok(DataValue::Mapping(out)),
                Err(e) => Err(e),
            }
        },
        (d, s) => Err(DataResolverError::IncompatibleYamlMerge { dst: d.clone(), src: s.clone() }),
    }
}

fn merge_entry_vecs(es: &Vec<(String, DataValue)>, fs: &Vec<(String, DataValue)>) -> (r: Result<
    Vec<(String, DataValue)>,
    DataResolverError,
>)
    ensures
        match spec_merge_entries(models_of_entries(es@), models_of_entries(fs@)) {
            Ok(gs) => r matches Ok(out) && models_of_entries(out@) == gs,
            Err((a, b)) => r matches Err(e) && e@ == SpecErr::IncompatibleMerge(a, b),
        },
    decreases fs,
{
    let ghost goal = spec_merge_entries(models_of_entries(es@), models_of_entries(fs@));
    let mut out = clone_entries(es);
    proof {
        lemma_models_of_entries(fs@);
        assert(models_of_entries(fs@).skip(0) =~= models_of_entries(fs@));
    }
    let mut i: usize = 0;
    while i < fs.len()
        invariant
            i <= fs@.len(),
            models_of_entries(fs@).len() == fs@.len(),
            forall|j: int| 0 <= j < fs@.len() ==> #[trigger] models_of_entries(fs@)[j]
                == (fs@[j].0@, model_of(fs@[j].1)),
            goal == spec_merge_entries(models_of_entries(es@), models_of_entries(fs@)),
            goal == spec_merge_entries(models_of_entries(out@), models_of_entries(fs@).skip(
                i as int,
            )),
        decreases fs@.len() - i,
    {
        let ghost rest = models_of_entries(fs@).skip(i as int);
        proof {
            assert(rest.len() == fs@.len() - i);
            assert(rest.first() == models_of_entries(fs@)[i as int]);
            assert(rest.drop_first() =~= models_of_entries(fs@).skip(i as int + 1));
        }
        match find_key(&out, &fs[i].0) {
            Some(j) => {
                let merged = match merge_vals(&out[j].1, &fs[i].1) {
                    Ok(m) => m,
                    Err(e) => {
                        proof {
                            lemma_models_of_entries(out@);
                            assert(spec_key_index(models_of_entries(out@), rest.first().0)
                                == j as int);
                            assert(spec_merge(models_of_entries(out@)[j as int].1, rest.first().1)
                                is Err);
                        }
                        return Err(e);
                    },
                };
                proof {
                    lemma_models_of_entries(out@);
                }
                let ghost out_before = out@;
                let pair = out.remove(j);
                let merged_pair = (pair.0, merged);
                out.insert(j, merged_pair);
                proof {
                    lemma_remove_insert_is_update(out_before, j as int, merged_pair);
                    lemma_entry_models_update(out_before, j as int, merged_pair);
                }
            },
            None => {
                let ghost out_before = out@;
                let new_pair = (fs[i].0.clone(), fs[i].1.clone());
                out.push(new_pair);
                proof {
                    lemma_entry_models_push(out_before, new_pair);
                }
            },
        }
        i = i + 1;
    }
    proof {
        assert(models_of_entries(fs@).skip(fs@.len() as int) =~= Seq::<
            (Seq<char>, SpecValue),
        >::empty());
    }
    Ok(out)
}


/// The keyed merge: merge `src` under `key` inside `dst`.  An absent
/// destination becomes a fresh single-entry mapping; a destination of any
/// other kind than a mapping refuses the merge.
pub open spec fn spec_merge_at(dst: SpecValue, key: Seq<char>, src: SpecValue) -> Result<
    SpecValue,
    SpecErr,
> {
    match dst {
        SpecValue::Mapping(es) => {
            let j = spec_key_index(es, key);
            if j < 0 {
                Ok(SpecValue::Mapping(es.push((key, src))))
            } else {
                match spec_merge(es[j].1, src) {
                    Ok(m) => Ok(SpecValue::Mapping(es.update(j, (es[j].0, m)))),
                    Err(p) => Err(SpecErr::IncompatibleMerge(p.0, p.1)),
                }
            }
        },
        SpecValue::Null => Ok(SpecValue::Mapping(seq![(key, src)])),
        _ => Err(SpecErr::CannotMergeIntoNonMapping(dst)),
    }
}

fn merge_at_vals(dst: &DataValue, key: &String, src: &DataValue) -> (r: Result<DataValue, DataResolverError>)
    ensures
        match spec_merge_at(dst@, key@, src@) {
            Ok(m) => r matches Ok(v) && v@ == m,
            Err(e) => r matches Err(e2) && e2@ == e,
        },
{
    match dst {
        DataValue::Mapping(es) => {
            proof {
                lemma_models_of_entries(es@);
            }
            match find_key(es, key) {
                Some(j) => {
                    match merge_vals(&es[j].1, src) {
                        Ok(m) => {
                            let mut out = clone_entries(es);
                            proof {
                                lemma_models_of_entries(out@);
                            }
                            let ghost out_before = out@;
                            let pair = out.remove(j);
                            let merged_pair = (pair.0, m);
                            out.insert(j, merged_pair);
                            proof {
                                lemma_remove_insert_is_update(out_before, j as int, merged_pair);
                                lemma_entry_models_update(out_before, j as int, merged_pair);
                                assert(models_of_entries(out@) =~= models_of_entries(es@).update(
                                    j as int,
                                    (models_of_entries(es@)[j as int].0, m@),
                                ));
                            }
                            Ok(DataValue::Mapping(out))
                        },
                        Err(e) => Err(e),
                    }
                },
                None => {
                    let mut out = clone_entries(es);
                    let ghost out_before = out@;
                    let new_pair = (key.clone(), src.clone());
                    out.push(new_pair);
                    proof {
                        lemma_entry_models_push(out_before, new_pair);
                    }
                    Ok(DataValue::Mapping(out))
                },
            }
        },
        DataValue::Null => {
            let mut out: Vec<(String, DataValue)> = Vec::new();
            out.push((key.clone(), src.clone()));
            proof {
                lemma_models_of_entries(out@);
                assert(models_of_entries(out@) =~= seq![(key@, src@)]);
            }
            Ok(DataValue::Mapping(out))
        },
        _ => Err(DataResolverError::CannotMergeIntoNonMapping(dst.clone())),
    }
}

impl DataValue {
    /// Merge `mergee` into `self` under the type-driven rules: absence never
    /// overrides, scalars of one kind replace, sequences concatenate, and
    /// mappings merge key by key.  On a kind clash, `self` is unchanged and
    /// the error carries both clashing sub-values.
    pub fn merge(&mut self, mergee: DataValue) -> (r: Result<(), DataResolverError>)
        ensures
            match spec_merge(old(self)@, mergee@) {
                Ok(m) => r is Ok && final(self)@ == m,
                Err((a, b)) => r matches Err(e) && e@ == SpecErr::IncompatibleMerge(a, b)
                    && *final(self) == *old(self),
            },
    {
        match merge_vals(&*self, &mergee) {
            Ok(v) => {
                *self = v;
                Ok(())
            },
            Err(e) => Err(e),
        }
    }

    /// Merge `mergee` under `key` inside `self`; see [`spec_merge_at`].
    pub fn merge_at(&mut self, key: &str, mergee: DataValue) -> (r: Result<(), DataResolverError>)
        ensures
            match spec_merge_at(old(self)@, key@, mergee@) {
                Ok(m) => r is Ok && final(self)@ == m,
                Err(e) => r matches Err(e2) && e2@ == e && *final(self) == *old(self),
            },
    {
        let k = key.to_owned();
        match merge_at_vals(&*self, &k, &mergee) {
            Ok(v) => {
                *self = v;
                Ok(())
            },
            Err(e) => Err(e),
        }
    }

    /// Move the value out, leaving `Null` behind.
    pub fn take(&mut self) -> (r: DataValue)
        ensures
            r == *old(self),
            *final(self) == DataValue::Null,
    {
        let mut t = DataValue::Null;
        core::mem::swap(self, &mut t);
        t
    }
}

/// Walk `addr` through nested mappings.  On success, yield what remains of
/// the walked value (the found position replaced by `Null`) and the value
/// taken from that position; on a missing key (or a non-mapping met before
/// the address is spent), name the offending address element.
pub open spec fn spec_take_sub(m: SpecValue, addr: Seq<Seq<char>>) -> Result<
    (SpecValue, SpecValue),
    Seq<char>,
>
    decreases addr.len(),
{
    if addr.len() == 0 {
        Ok((SpecValue::Null, m))
    } else {
        match m {
            SpecValue::Mapping(es) => {
                let j = spec_key_index(es, addr.first());
                if j < 0 {
                    Err(addr.first())
                } else {
                    match spec_take_sub(es[j].1, addr.drop_first()) {
                        Ok(p) => Ok(
                            (SpecValue::Mapping(es.update(j, (es[j].0, p.0))), p.1),
                        ),
                        Err(k) => Err(k),
                    }
                }
            },
            _ => Err(addr.first()),
        }
    }
}

/// As [`spec_take_sub`], but read-only: just the value at the address.
pub open spec fn spec_get_sub(m: SpecValue, addr: Seq<Seq<char>>) -> Result<SpecValue, Seq<char>>
    decreases addr.len(),
{
    if addr.len() == 0 {
        Ok(m)
    } else {
        match m {
            SpecValue::Mapping(es) => {
                let j = spec_key_index(es, addr.first());
                if j < 0 {
                    Err(addr.first())
                } else {
                    spec_get_sub(es[j].1, addr.drop_first())
                }
            },
            _ => Err(addr.first()),
        }
    }
}

fn take_at(v: &DataValue, address: &Vec<String>, i: usize) -> (r: Result<
    (DataValue, DataValue),
    DataResolverError,
>)
    requires
        i <= address@.len(),
    ensures
        match spec_take_sub(v@, address.deep_view().skip(i as int)) {
            Ok(p) => r matches Ok(q) && q.0@ == p.0 && q.1@ == p.1,
            Err(k) => r matches Err(e) && e@ == SpecErr::KeyNotFound(k),
        },
    decreases address@.len() - i,
{
    let ghost rest = address.deep_view().skip(i as int);
    if i == address.len() {
        return Ok((DataValue::Null, v.clone()));
    }
    proof {
        assert(rest.first() == address.deep_view()[i as int]);
        assert(rest.drop_first() =~= address.deep_view().skip(i as int + 1));
    }
    match v {
        DataValue::Mapping(es) => {
            proof {
                lemma_models_of_entries(es@);
            }
            match find_key(es, &address[i]) {
                Some(j) => {
                    match take_at(&es[j].1, address, i + 1) {
                        Ok(q) => {
                            let (rem, taken) = q;
                            let mut out = clone_entries(es);
                            proof {
                                lemma_models_of_entries(out@);
                            }
                            let ghost out_before = out@;
                            let pair = out.remove(j);
                            let new_pair = (pair.0, rem);
                            out.insert(j, new_pair);
                            proof {
                                lemma_remove_insert_is_update(out_before, j as int, new_pair);
                                lemma_entry_models_update(out_before, j as int, new_pair);
                                assert(models_of_entries(out@) =~= models_of_entries(es@).update(
                                    j as int,
                                    (models_of_entries(es@)[j as int].0, new_pair.1@),
                                ));
                            }
                            Ok((DataValue::Mapping(out), taken))
                        },
                        Err(e) => Err(e),
                    }
                },
                None => Err(DataResolverError::KeyNotFound(address[i].clone())),
            }
        },
        _ => Err(DataResolverError::KeyNotFound(address[i].clone())),
    }
}

fn get_at<'a>(v: &'a DataValue, address: &Vec<String>, i: usize) -> (r: Result<
    &'a DataValue,
    DataResolverError,
>)
    requires
        i <= address@.len(),
    ensures
        match spec_get_sub(v@, address.deep_view().skip(i as int)) {
            Ok(sub) => r matches Ok(w) && w@ == sub,
            Err(k) => r matches Err(e) && e@ == SpecErr::KeyNotFound(k),
        },
    decreases address@.len() - i,
{
    let ghost rest = address.deep_view().skip(i as int);
    if i == address.len() {
        return Ok(v);
    }
    proof {
        assert(rest.first() == address.deep_view()[i as int]);
        assert(rest.drop_first() =~= address.deep_view().skip(i as int + 1));
    }
    match v {
        DataValue::Mapping(es) => {
            proof {
                lemma_models_of_entries(es@);
            }
            match find_key(es, &address[i]) {
                Some(j) => get_at(&es[j].1, address, i + 1),
                None => Err(DataResolverError::KeyNotFound(address[i].clone())),
            }
        },
        _ => Err(DataResolverError::KeyNotFound(address[i].clone())),
    }
}

/// Extract the sub-value at `address` from `value`, replacing the extracted
/// position with `Null`.  On failure `value` is unchanged and the missing
/// key is named.
pub fn take_sub_value_at_address(value: &mut DataValue, address: &Vec<String>) -> (r: Result<
    DataValue,
    DataResolverError,
>)
    ensures
        match spec_take_sub(old(value)@, address.deep_view()) {
            Ok(p) => r matches Ok(taken) && taken@ == p.1 && final(value)@ == p.0,
            Err(k) => r matches Err(e) && e@ == SpecErr::KeyNotFound(k) && *final(value) == *old(value),
        },
{
    proof {
        assert(address.deep_view().skip(0) =~= address.deep_view());
    }
    match take_at(&*value, address, 0) {
        Ok(q) => {
            let (rem, taken) = q;
            *value = rem;
            Ok(taken)
        },
        Err(e) => Err(e),
    }
}

/// Borrow the sub-value at `address` inside `value`, without changing
/// anything; on a missing key the key is named.
pub fn get_sub_value_at_address<'a>(value: &'a DataValue, address: &Vec<String>) -> (r: Result<
    &'a DataValue,
    DataResolverError,
>)
    ensures
        match spec_get_sub(value@, address.deep_view()) {
            Ok(sub) => r matches Ok(w) && w@ == sub,
            Err(k) => r matches Err(e) && e@ == SpecErr::KeyNotFound(k),
        },
{
    proof {
        assert(address.deep_view().skip(0) =~= address.deep_view());
    }
    get_at(value, address, 0)
}

} // verus!
