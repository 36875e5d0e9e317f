//! The resolution strategies: walking the store from broad defaults toward
//! more specific data and materializing a value of the requested shape.
//!
//! Until a cursor is exhausted, every shape follows the same recursion: read
//! what is visible here, descend, resolve the rest, and merge the deeper
//! (more specific) result on top of the broader one.  Once the cursor is
//! exhausted the shape decides: a scalar keeps whatever was read; a record
//! resolves each declared field one name below and merges it in under the
//! field's key; a list keeps an explicit document sequence, or otherwise
//! materializes one element per directory entry.

use vstd::prelude::*;

verus! {

use crate::DataResolverError;
use crate::SpecErr;
use crate::data_path::DataPath;
use crate::data_path::Level;
use crate::data_path::clone_strings;
use crate::data_path::spec_value_at;
use crate::shape::Field;
use crate::shape::ScalarKind;
use crate::shape::Shape;
use crate::tree::Tree;
use crate::tree::TreeEntry;
use crate::tree::spec_dir_at;
use crate::tree::spec_entry_names;
use crate::values::DataValue;
use crate::values::SpecValue;
use crate::values::find_key;
use crate::values::lemma_entry_models_push;
use crate::values::lemma_model_null_iff;
use crate::values::lemma_models_of_entries;
use crate::values::lemma_models_of_seq;
use crate::values::models_of_entries;
use crate::values::models_of_seq;
use crate::values::spec_key_index;
use crate::values::spec_merge;
use crate::values::spec_merge_at;

/// How many descent steps a cursor position still allows.
pub open spec fn lvl_weight(level: Level) -> int {
    if level is File {
        1int
    } else {
        0int
    }
}

/// What a read yields at this position, with every failure treated as
/// absence: within the resolution recursion, broader levels are allowed to
/// hold no data.
pub open spec fn spec_value_or_null(
    t: Tree,
    level: Level,
    path: Seq<Seq<char>>,
    addr: Seq<Seq<char>>,
) -> SpecValue {
    match spec_value_at(t, level, path, addr) {
        Ok(v) => v,
        Err(_) => SpecValue::Null,
    }
}

/// The advance step: a file position re-enters its directory when that
/// directory exists; a directory position consumes one address segment; an
/// exhausted cursor, or a file position at a dead end, has no next position.
pub open spec fn spec_descend(
    t: Tree,
    level: Level,
    path: Seq<Seq<char>>,
    addr: Seq<Seq<char>>,
) -> Option<(Level, Seq<Seq<char>>, Seq<Seq<char>>)> {
    match level {
        Level::File => match spec_dir_at(t, path) {
            Some(_) => Some((Level::Dir, path, addr)),
            None => None,
        },
        Level::Dir => if addr.len() > 0 {
            Some((Level::File, path.push(addr.first()), addr.drop_first()))
        } else {
            None
        },
    }
}

/// The resolution of `shape` at the given cursor position.
pub open spec fn spec_resolve(
    t: Tree,
    shape: Shape,
    level: Level,
    path: Seq<Seq<char>>,
    addr: Seq<Seq<char>>,
) -> Result<SpecValue, SpecErr>
    decreases shape, 0int, 2 * addr.len() + lvl_weight(level),
{
    match shape {
        Shape::Optional(inner) => match spec_resolve(t, *inner, level, path, addr) {
            Ok(v) => Ok(v),
            Err(_) => Ok(SpecValue::Null),
        },
        _ => {
            if !(level is Dir && addr.len() == 0) {
                let value = spec_value_or_null(t, level, path, addr);
                match spec_descend(t, level, path, addr) {
                    None => Ok(value),
                    Some(next) => match spec_resolve(t, shape, next.0, next.1, next.2) {
                        Ok(deeper) => match spec_merge(value, deeper) {
                            Ok(m) => Ok(m),
                            Err(p) => Err(SpecErr::IncompatibleMerge(p.0, p.1)),
                        },
                        Err(e) => Err(e),
                    },
                }
            } else {
                match shape {
                    Shape::Scalar(_) => Ok(spec_value_or_null(t, level, path, addr)),
                    Shape::Record(fields) => {
                        let base = spec_value_or_null(t, level, path, addr);
                        match spec_merge_fields(t, fields@, base, path) {
                            Ok(v) => spec_enforce_fields(fields@, v),
                            Err(e) => Err(e),
                        }
                    },
                    Shape::List(inner) => {
                        let own = spec_value_or_null(t, level, path, addr);
                        if own is Sequence {
                            Ok(own)
                        } else {
                            match spec_dir_at(t, path) {
                                Some(d) => Ok(
                                    SpecValue::Sequence(
                                        spec_list_elems(t, *inner, d.entries@, path),
                                    ),
                                ),
                                None => Ok(SpecValue::Sequence(Seq::empty())),
                            }
                        }
                    },
                    _ => Ok(SpecValue::Null),
                }
            }
        },
    }
}

/// Resolve each declared field one name below the record's position and
/// merge the result in under the field's key.
pub open spec fn spec_merge_fields(
    t: Tree,
    fields: Seq<Field>,
    value: SpecValue,
    path: Seq<Seq<char>>,
) -> Result<SpecValue, SpecErr>
    decreases fields, 0int, 0int,
{
    if fields.len() == 0 {
        Ok(value)
    } else {
        let fld = fields.first();
        match spec_resolve(t, fld.shape, Level::File, path.push(fld.name@), Seq::empty()) {
            Ok(fv) => match spec_merge_at(value, fld.name@, fv) {
                Ok(v2) => spec_merge_fields(t, fields.drop_first(), v2, path),
                Err(e) => Err(e),
            },
            Err(e) => Err(e),
        }
    }
}

/// A field counts as satisfied when its shape tolerates absence or the
/// resolved record maps its name to a present value.
pub open spec fn field_is_satisfied(fld: Field, value: SpecValue) -> bool {
    fld.shape is Optional || match value {
        SpecValue::Mapping(es) => {
            let j = spec_key_index(es, fld.name@);
            j >= 0 && !(es[j].1 is Null)
        },
        _ => false,
    }
}

/// A resolved record is rejected as absent data unless every non-optional
/// field is satisfied.
pub open spec fn spec_enforce_fields(fields: Seq<Field>, value: SpecValue) -> Result<
    SpecValue,
    SpecErr,
>
    decreases fields.len(),
{
    if fields.len() == 0 {
        Ok(value)
    } else if field_is_satisfied(fields.first(), value) {
        spec_enforce_fields(fields.drop_first(), value)
    } else {
        Err(SpecErr::DataNotFound)
    }
}

/// The name-derived entries of one list element's seed: every field marked
/// `derive_from_name` is given the element's own name as text.
pub open spec fn spec_derive_entries(fields: Seq<Field>, name: Seq<char>) -> Seq<
    (Seq<char>, SpecValue),
>
    decreases fields.len(),
{
    if fields.len() == 0 {
        Seq::empty()
    } else {
        let rest = spec_derive_entries(fields.drop_first(), name);
        if fields.first().derive_from_name {
            seq![(fields.first().name@, SpecValue::Text(name))] + rest
        } else {
            rest
        }
    }
}

/// The value a list element starts from before its own documents are merged
/// in: name-derived defaults for a record element, absence otherwise.
pub open spec fn spec_seed(inner: Shape, name: Seq<char>) -> SpecValue {
    match inner {
        Shape::Record(fields) => {
            let ds = spec_derive_entries(fields@, name);
            if ds.len() == 0 {
                SpecValue::Null
            } else {
                SpecValue::Mapping(ds)
            }
        },
        _ => SpecValue::Null,
    }
}

/// The elements a list materializes from a directory's entries: each entry
/// is resolved as one element rooted at the entry's own name, merged on top
/// of its name-derived seed; entries whose resolution or merge fails are
/// left out rather than failing the list.
pub open spec fn spec_list_elems(
    t: Tree,
    inner: Shape,
    entries: Seq<TreeEntry>,
    path: Seq<Seq<char>>,
) -> Seq<SpecValue>
    decreases inner, 1int, entries.len(),
{
    if entries.len() == 0 {
        Seq::empty()
    } else {
        let name = entries.first().name@;
        let seed = spec_seed(inner, name);
        let restv = spec_list_elems(t, inner, entries.drop_first(), path);
        match spec_resolve(t, inner, Level::File, path.push(name), Seq::empty()) {
            Ok(v) => match spec_merge(seed, v) {
                Ok(m) => seq![m] + restv,
                Err(_) => restv,
            },
            Err(_) => restv,
        }
    }
}

/// The outcome of a whole query: the shape's resolution, except that a
/// non-optional shape left wholly without data is a failure, not `Null`.
pub open spec fn spec_get(t: Tree, addr: Seq<Seq<char>>, shape: Shape) -> Result<
    SpecValue,
    SpecErr,
> {
    match spec_resolve(t, shape, Level::Dir, Seq::empty(), addr) {
        Ok(v) => if v is Null && !(shape is Optional) {
            Err(SpecErr::DataNotFound)
        } else {
            Ok(v)
        },
        Err(e) => Err(e),
    }
}

/// Whether an executable outcome is exactly a prescribed model outcome.
pub open spec fn result_matches(
    r: Result<DataValue, DataResolverError>,
    s: Result<SpecValue, SpecErr>,
) -> bool {
    match s {
        Ok(v) => r matches Ok(w) && w@ == v,
        Err(e) => r matches Err(e2) && e2@ == e,
    }
}


/// The value a list element starts from: every `derive_from_name` field of a
/// record element is seeded with the element's name.
fn build_seed(inner: &Shape, name: &String) -> (r: DataValue)
    ensures
        r@ == spec_seed(*inner, name@),
{
    match inner {
        Shape::Record(fields) => {
            proof {
                assert(fields@.skip(0) =~= fields@);
            }
            let mut es: Vec<(String, DataValue)> = Vec::new();
            let mut i: usize = 0;
            while i < fields.len()
                invariant
                    i <= fields@.len(),
                    spec_derive_entries(fields@, name@) == models_of_entries(es@)
                        + spec_derive_entries(fields@.skip(i as int), name@),
                decreases fields@.len() - i,
            {
                let ghost rest = fields@.skip(i as int);
                proof {
                    assert(rest.first() == fields@[i as int]);
                    assert(rest.drop_first() =~= fields@.skip(i as int + 1));
                }
                if fields[i].derive_from_name {
                    let ghost es_before = es@;
                    let new_pair = (fields[i].name.clone(), DataValue::Text(name.clone()));
                    es.push(new_pair);
                    proof {
                        lemma_entry_models_push(es_before, new_pair);
                        assert(models_of_entries(es@) + spec_derive_entries(
                            fields@.skip(i as int + 1),
                            name@,
                        ) =~= models_of_entries(es_before) + (seq![
                            (fields@[i as int].name@, SpecValue::Text(name@)),
                        ] + spec_derive_entries(fields@.skip(i as int + 1), name@)));
                    }
                }
                i = i + 1;
            }
            proof {
                assert(fields@.skip(fields@.len() as int) =~= Seq::<Field>::empty());
                lemma_models_of_entries(es@);
                assert(models_of_entries(es@) + Seq::<(Seq<char>, SpecValue)>::empty()
                    =~= models_of_entries(es@));
            }
            if es.len() == 0 {
                DataValue::Null
            } else {
                DataValue::Mapping(es)
            }
        },
        _ => DataValue::Null,
    }
}

/// Whether a resolved record satisfies one declared field.
fn field_satisfied(fld: &Field, value: &DataValue) -> (r: bool)
    ensures
        r == field_is_satisfied(*fld, value@),
{
    match &fld.shape {
        Shape::Optional(_) => true,
        _ => match value {
            DataValue::Mapping(es) => {
                proof {
                    lemma_models_of_entries(es@);
                }
                match find_key(es, &fld.name) {
                    Some(j) => {
                        proof {
                            lemma_model_null_iff(es@[j as int].1);
                        }
                        match &es[j].1 {
                            DataValue::Null => false,
                            _ => true,
                        }
                    },
                    None => false,
                }
            },
            _ => false,
        },
    }
}

/// Reject a resolved record unless every non-optional field is satisfied.
fn enforce_fields(fields: &Vec<Field>, value: DataValue) -> (r: Result<DataValue, DataResolverError>)
    ensures
        result_matches(r, spec_enforce_fields(fields@, value@)),
{
    proof {
        assert(fields@.skip(0) =~= fields@);
    }
    let mut i: usize = 0;
    while i < fields.len()
        invariant
            i <= fields@.len(),
            spec_enforce_fields(fields@, value@) == spec_enforce_fields(
                fields@.skip(i as int),
                value@,
            ),
        decreases fields@.len() - i,
    {
        let ghost rest = fields@.skip(i as int);
        proof {
            assert(rest.first() == fields@[i as int]);
            assert(rest.drop_first() =~= fields@.skip(i as int + 1));
        }
        if !field_satisfied(&fields[i], &value) {
            return Err(DataResolverError::DataNotFound);
        }
        i = i + 1;
    }
    proof {
        assert(fields@.skip(fields@.len() as int) =~= Seq::<Field>::empty());
    }
    Ok(value)
}

/// Resolve every declared field one name below the record's position and
/// merge each result in under the field's key.
#[verifier::loop_isolation(false)]
pub fn merge_properties(
    fields: &Vec<Field>,
    value: &mut DataValue,
    dp: &DataPath,
    tree: &Tree,
) -> (r: Result<(), DataResolverError>)
    requires
        dp.address@.len() == 0,
    ensures
        match spec_merge_fields(*tree, fields@, old(value)@, dp.path.deep_view()) {
            Ok(m) => r is Ok && final(value)@ == m,
            Err(e) => r matches Err(e2) && e2@ == e,
        },
    decreases *fields, 0int, 0int,
{
    let ghost value0 = old(value)@;
    let ghost path_dv = dp.path.deep_view();
    proof {
        assert(fields@.skip(0) =~= fields@);
    }
    let mut i: usize = 0;
    while i < fields.len()
        invariant
            i <= fields@.len(),
            dp.address@.len() == 0,
            path_dv == dp.path.deep_view(),
            spec_merge_fields(*tree, fields@, value0, path_dv) == spec_merge_fields(
                *tree,
                fields@.skip(i as int),
                value@,
                path_dv,
            ),
        decreases fields@.len() - i,
    {
        let ghost rest = fields@.skip(i as int);
        proof {
            assert(rest.first() == fields@[i as int]);
            assert(rest.drop_first() =~= fields@.skip(i as int + 1));
        }
        let fd = dp.join(fields[i].name.as_str());
        proof {
            assert(fd.address.deep_view() =~= Seq::<Seq<char>>::empty());
            assert(fd.level == Level::File);
            assert(fd.path.deep_view() == path_dv.push(rest.first().name@));
        }
        let ghost sub = spec_resolve(
            *tree,
            rest.first().shape,
            Level::File,
            path_dv.push(rest.first().name@),
            Seq::<Seq<char>>::empty(),
        );
        let fv = match resolve_value(&fields[i].shape, fd, tree) {
            Ok(v) => v,
            Err(e) => {
                proof {
                    assert(sub == Err::<SpecValue, SpecErr>(e@));
                    assert(spec_merge_fields(*tree, rest, value@, path_dv) == Err::<
                        SpecValue,
                        SpecErr,
                    >(e@));
                }
                return Err(e);
            },
        };
        proof {
            assert(sub == Ok::<SpecValue, SpecErr>(fv@));
        }
        match value.merge_at(fields[i].name.as_str(), fv) {
            Ok(_) => {
            },
            Err(e) => {
                proof {
                    assert(spec_merge_at(value@, rest.first().name@, fv@) == Err::<
                        SpecValue,
                        SpecErr,
                    >(e@));
                    assert(spec_merge_fields(*tree, rest, value@, path_dv) == Err::<
                        SpecValue,
                        SpecErr,
                    >(e@));
                }
                return Err(e);
            },
        }
        i = i + 1;
    }
    proof {
        assert(fields@.skip(fields@.len() as int) =~= Seq::<Field>::empty());
    }
    Ok(())
}

/// Materialize one list element per entry of the directory at the cursor's
/// path; elements whose resolution or merge fails are left out.
fn resolve_list_items(inner: &Shape, dp: &DataPath, tree: &Tree) -> (r: DataValue)
    requires
        dp.address@.len() == 0,
    ensures
        r@ == (match spec_dir_at(*tree, dp.path.deep_view()) {
            Some(d) => SpecValue::Sequence(
                spec_list_elems(*tree, *inner, d.entries@, dp.path.deep_view()),
            ),
            None => SpecValue::Sequence(Seq::<SpecValue>::empty()),
        }),
    decreases *inner, 1int, 0int,
{
    let ghost pdv = dp.path.deep_view();
    let ghost sd = spec_dir_at(*tree, pdv);
    let names = dp.filenames(tree);
    let mut items: Vec<DataValue> = Vec::new();
    proof {
        if sd is Some {
            let d = sd->0;
            assert(names.deep_view() == spec_entry_names(d.entries@));
            assert(names.deep_view().len() == names@.len());
            assert(spec_entry_names(d.entries@).len() == d.entries@.len());
            assert(d.entries@.skip(0) =~= d.entries@);
            lemma_models_of_seq(items@);
            assert(models_of_seq(items@) + spec_list_elems(*tree, *inner, d.entries@, pdv)
                =~= spec_list_elems(*tree, *inner, d.entries@, pdv));
        }
    }
    let mut i: usize = 0;
    while i < names.len()
        invariant
            i <= names@.len(),
            dp.address@.len() == 0,
            pdv == dp.path.deep_view(),
            sd == spec_dir_at(*tree, pdv),
            match sd {
                Some(d) => {
                    &&& names.deep_view() == spec_entry_names(d.entries@)
                    &&& names@.len() == d.entries@.len()
                    &&& spec_list_elems(*tree, *inner, d.entries@, pdv) == models_of_seq(items@)
                        + spec_list_elems(*tree, *inner, d.entries@.skip(i as int), pdv)
                },
                None => names@.len() == 0 && items@.len() == 0,
            },
        decreases names@.len() - i,
    {
        let ghost d = sd->0;
        let ghost rest = d.entries@.skip(i as int);
        proof {
            assert(rest.first() == d.entries@[i as int]);
            assert(rest.drop_first() =~= d.entries@.skip(i as int + 1));
            assert(names@[i as int]@ == spec_entry_names(d.entries@)[i as int]);
        }
        let elem_dp = dp.join(names[i].as_str());
        proof {
            assert(elem_dp.address.deep_view() =~= Seq::<Seq<char>>::empty());
        }
        let mut seed = build_seed(inner, &names[i]);
        match resolve_value(inner, elem_dp, tree) {
            Ok(v) => {
                match seed.merge(v) {
                    Ok(_) => {
                        let ghost items_before = items@;
                        items.push(seed);
                        proof {
                            lemma_models_of_seq(items_before);
                            lemma_models_of_seq(items@);
                            assert(models_of_seq(items@) =~= models_of_seq(items_before).push(
                                items@.last()@,
                            ));
                            assert(models_of_seq(items_before).push(items@.last()@)
                                + spec_list_elems(*tree, *inner, rest.drop_first(), pdv)
                                =~= models_of_seq(items_before) + (seq![items@.last()@]
                                + spec_list_elems(*tree, *inner, rest.drop_first(), pdv)));
                        }
                    },
                    Err(_) => {
                    },
                }
            },
            Err(_) => {
            },
        }
        i = i + 1;
    }
    proof {
        if sd is Some {
            let d = sd->0;
            assert(d.entries@.skip(d.entries@.len() as int) =~= Seq::<TreeEntry>::empty());
            lemma_models_of_seq(items@);
            assert(models_of_seq(items@) + Seq::<SpecValue>::empty() =~= models_of_seq(items@));
        } else {
            lemma_models_of_seq(items@);
            assert(models_of_seq(items@) =~= Seq::<SpecValue>::empty());
        }
    }
    DataValue::Sequence(items)
}

/// Resolve `shape` at the cursor position `dp`: the per-shape strategy over
/// the broad-to-specific descent.
pub fn resolve_value(shape: &Shape, dp: DataPath, tree: &Tree) -> (r: Result<
    DataValue,
    DataResolverError,
>)
    ensures
        result_matches(
            r,
            spec_resolve(*tree, *shape, dp.level, dp.path.deep_view(), dp.address.deep_view()),
        ),
    decreases *shape, 0int, 2 * dp.address@.len() + lvl_weight(dp.level),
{
    let ghost g_level = dp.level;
    let ghost g_path = dp.path.deep_view();
    let ghost g_addr = dp.address.deep_view();
    match shape {
        Shape::Optional(inner) => {
            match resolve_value(inner, dp, tree) {
                Ok(v) => Ok(v),
                Err(_) => Ok(DataValue::Null),
            }
        },
        _ => {
            if !dp.done() {
                let mut value = match dp.value(tree) {
                    Ok(v) => v,
                    Err(_) => DataValue::Null,
                };
                match dp.descend(tree) {
                    None => Ok(value),
                    Some(d2) => {
                        proof {
                            if g_level is Dir {
                                assert(d2.path.deep_view() =~= g_path.push(g_addr.first()));
                                assert(d2.address.deep_view() =~= g_addr.drop_first());
                            }
                        }
                        match resolve_value(shape, d2, tree) {
                            Ok(deeper) => match value.merge(deeper) {
                                Ok(_) => Ok(value),
                                Err(e) => Err(e),
                            },
                            Err(e) => Err(e),
                        }
                    },
                }
            } else {
                match shape {
                    Shape::Scalar(_) => match dp.value(tree) {
                        Ok(v) => Ok(v),
                        Err(_) => Ok(DataValue::Null),
                    },
                    Shape::Record(fields) => {
                        let mut value = match dp.value(tree) {
                            Ok(v) => v,
                            Err(_) => DataValue::Null,
                        };
                        match merge_properties(fields, &mut value, &dp, tree) {
                            Ok(_) => enforce_fields(fields, value),
                            Err(e) => Err(e),
                        }
                    },
                    Shape::List(inner) => {
                        let own = match dp.value(tree) {
                            Ok(v) => v,
                            Err(_) => DataValue::Null,
                        };
                        match own {
                            DataValue::Sequence(items) => Ok(DataValue::Sequence(items)),
                            _ => Ok(resolve_list_items(inner, &dp, tree)),
                        }
                    },
                    _ => Ok(DataValue::Null),
                }
            }
        },
    }
}

/// A resolver rooted at an in-memory image of the document store.
pub struct DataResolver {
    pub root: Tree,
}

impl DataResolver {
    /// Wrap a loaded store.
    pub fn new(root: Tree) -> (r: DataResolver)
        ensures
            r.root == root,
    {
        DataResolver { root }
    }

    /// Resolve `address` against the store to a value of `shape`.  A
    /// non-optional shape that resolves to nothing at all is an error, not
    /// an absent value.
    pub fn get(&self, address: &Vec<String>, shape: &Shape) -> (r: Result<
        DataValue,
        DataResolverError,
    >)
        ensures
            result_matches(r, spec_get(self.root, address.deep_view(), *shape)),
    {
        let addr = clone_strings(address);
        let dp = DataPath::new(addr);
        proof {
            assert(dp.path.deep_view() =~= Seq::<Seq<char>>::empty());
            assert(dp.address.deep_view() =~= address.deep_view());
        }
        match resolve_value(shape, dp, &self.root) {
            Ok(v) => {
                let optional = match shape {
                    Shape::Optional(_) => true,
                    _ => false,
                };
                proof {
                    lemma_model_null_iff(v);
                }
                let null = match &v {
                    DataValue::Null => true,
                    _ => false,
                };
                if null && !optional {
                    Err(DataResolverError::DataNotFound)
                } else {
                    Ok(v)
                }
            },
            Err(e) => Err(e),
        }
    }
}


/// Whether the descent starting at the given position finds no data at any
/// position it visits: every read on the way is absent.
pub open spec fn no_data_on_descent(
    t: Tree,
    level: Level,
    path: Seq<Seq<char>>,
    addr: Seq<Seq<char>>,
) -> bool
    decreases 2 * addr.len() + lvl_weight(level),
{
    &&& spec_value_or_null(t, level, path, addr) is Null
    &&& match spec_descend(t, level, path, addr) {
        Some(next) => no_data_on_descent(t, next.0, next.1, next.2),
        None => true,
    }
}

/// A scalar resolution over a descent that finds no data resolves to
/// absence.
pub proof fn lemma_scalar_descent_null(
    t: Tree,
    kind: ScalarKind,
    level: Level,
    path: Seq<Seq<char>>,
    addr: Seq<Seq<char>>,
)
    requires
        no_data_on_descent(t, level, path, addr),
    ensures
        spec_resolve(t, Shape::Scalar(kind), level, path, addr) == Ok::<SpecValue, SpecErr>(
            SpecValue::Null,
        ),
    decreases 2 * addr.len() + lvl_weight(level),
{
    if !(level is Dir && addr.len() == 0) {
        match spec_descend(t, level, path, addr) {
            Some(next) => {
                lemma_scalar_descent_null(t, kind, next.0, next.1, next.2);
            },
            None => {
            },
        }
    }
}

/// Law: a non-optional scalar whose descent path holds no document at all
/// fails with absent data; it does not resolve to `Null`.
pub proof fn lemma_missing_scalar_is_data_not_found(t: Tree, kind: ScalarKind, addr: Seq<Seq<char>>)
    requires
        no_data_on_descent(t, Level::Dir, Seq::empty(), addr),
    ensures
        spec_get(t, addr, Shape::Scalar(kind)) == Err::<SpecValue, SpecErr>(SpecErr::DataNotFound),
{
    lemma_scalar_descent_null(t, kind, Level::Dir, Seq::empty(), addr);
}

/// Law: resolving the same address and shape against an unchanged store is
/// deterministic — any two outcomes agree, and successful values are
/// structurally equal.
pub proof fn lemma_resolution_idempotent(
    t: Tree,
    addr: Seq<Seq<char>>,
    shape: Shape,
    r1: Result<DataValue, DataResolverError>,
    r2: Result<DataValue, DataResolverError>,
)
    requires
        result_matches(r1, spec_get(t, addr, shape)),
        result_matches(r2, spec_get(t, addr, shape)),
    ensures
        r1 is Ok <==> r2 is Ok,
        match (r1, r2) {
            (Ok(v1), Ok(v2)) => v1@ == v2@,
            _ => true,
        },
{
}

} // verus!
