//! Loading a configuration from an ordered list of layered sources.
//!
//! Each source is the text of one candidate file; a missing file is
//! handed in as `None` and silently skipped.  Every present source
//! must parse; the parsed values are merged left to right, a later
//! source overriding an earlier one key by key at the top level (a
//! non-object replaces the whole accumulated value).  Deeper keys are
//! not merged: an overriding top-level value is taken whole.
//!
//! Loading is a function of the source texts alone, so reloading
//! unchanged sources always rebuilds the same snapshot.

use vstd::prelude::*;

use crate::json::parse_text;
use crate::json::spec_doc;
use crate::json::Parsed;
use crate::value::lookup_model;
use crate::value::model_fields;
use crate::value::upsert_model;
use crate::value::ConfigValue;
use crate::value::ValModel;

verus! {

/// Merging `over` onto `base`: two objects merge key by key at the
/// top level, the overriding binding winning; anything else is
/// replaced by `over` outright.
pub open spec fn spec_merge(base: ValModel, over: ValModel) -> ValModel {
    match base {
        ValModel::Obj(bf) => match over {
            ValModel::Obj(of) => ValModel::Obj(merge_fields_model(bf, of)),
            _ => over,
        },
        _ => over,
    }
}

/// Folds the overriding bindings onto the base ones, left to right.
pub open spec fn merge_fields_model(
    base: Seq<(Seq<char>, ValModel)>,
    over: Seq<(Seq<char>, ValModel)>,
) -> Seq<(Seq<char>, ValModel)>
    decreases over.len(),
{
    if over.len() == 0 {
        base
    } else {
        merge_fields_model(upsert_model(base, over[0].0, over[0].1), over.drop_first())
    }
}

/// No two bindings share a key.
pub open spec fn keys_unique(fields: Seq<(Seq<char>, ValModel)>) -> bool {
    forall|i: int, j: int| 0 <= i < j < fields.len() ==> fields[i].0 != fields[j].0
}

/// Merge precedence, key by key: an overriding binding wins, any
/// other key keeps its base binding, and a key bound in neither side
/// stays unbound.
pub proof fn lemma_merge_lookup(
    base: Seq<(Seq<char>, ValModel)>,
    over: Seq<(Seq<char>, ValModel)>,
    key: Seq<char>,
)
    requires
        keys_unique(over),
    ensures
        lookup_model(merge_fields_model(base, over), key) == if lookup_model(over, key) is Some {
            lookup_model(over, key)
        } else {
            lookup_model(base, key)
        },
    decreases over.len(),
{
    if over.len() > 0 {
        let rest = over.drop_first();
        assert(forall|j: int| 0 <= j < rest.len() ==> rest[j] == over[j + 1]);
        let stepped = upsert_model(base, over[0].0, over[0].1);
        lemma_merge_lookup(stepped, rest, key);
        crate::value::lemma_upsert_lookup(base, over[0].0, over[0].1, key);
        if key == over[0].0 {
            assert(forall|j: int| 0 <= j < rest.len() ==> rest[j].0 != key);
            crate::value::lemma_lookup_absent(rest, key);
        }
    }
}

/// How one load attempt ends: a fully merged snapshot, or the source
/// and offset of the first syntax error.
pub enum LoadResult {
    Loaded(ValModel),
    Failed { source: int, at: int },
}

/// The snapshot an ordered list of sources loads to, folded from
/// `acc` over the sources from `idx` on.
pub open spec fn spec_load_from(
    acc: ValModel,
    sources: Seq<Option<Seq<char>>>,
    idx: int,
) -> LoadResult
    decreases sources.len() - idx,
{
    if !(0 <= idx < sources.len()) {
        LoadResult::Loaded(acc)
    } else {
        match sources[idx] {
            None => spec_load_from(acc, sources, idx + 1),
            Some(text) => match spec_doc(text) {
                Parsed::Found { v, next } => spec_load_from(spec_merge(acc, v), sources, idx + 1),
                Parsed::Fail { at } => LoadResult::Failed { source: idx, at },
            },
        }
    }
}

/// The empty snapshot every load starts from.
pub open spec fn empty_snapshot() -> ValModel {
    ValModel::Obj(Seq::empty())
}

/// What an ordered list of sources loads to.
pub open spec fn spec_load(sources: Seq<Option<Seq<char>>>) -> LoadResult {
    spec_load_from(empty_snapshot(), sources, 0)
}

/// Loading is a function of the source texts alone: two loads of
/// equal sources end in the same result, so reloading unchanged
/// sources rebuilds a deep-equal snapshot.
pub proof fn lemma_load_deterministic(
    sources: Seq<Option<Seq<char>>>,
    first: ValModel,
    second: ValModel,
)
    requires
        spec_load(sources) == LoadResult::Loaded(first),
        spec_load(sources) == LoadResult::Loaded(second),
    ensures
        first == second,
{
}

/// A syntax error found while loading: which source went wrong, and
/// at which character offset.
#[derive(Clone, Copy, Debug, PartialEq, Eq, Structural)]
pub struct LoadError {
    pub source: usize,
    pub at: usize,
}

/// Merges `over` onto `base`, exactly as `spec_merge` says.
pub fn merge_values(base: ConfigValue, over: ConfigValue) -> (r: ConfigValue)
    ensures
        r.model() == spec_merge(base.model(), over.model()),
{
    match base {
        ConfigValue::Obj(base_fields) => match over {
            ConfigValue::Obj(over_fields) => {
                let ghost target = merge_fields_model(
                    model_fields(base_fields@),
                    model_fields(over_fields@),
                );
                let mut acc = base_fields;
                let mut rest = over_fields;
                while rest.len() > 0
                    invariant
                        merge_fields_model(model_fields(acc@), model_fields(rest@)) == target,
                    decreases rest.len(),
                {
                    let ghost prev_acc = model_fields(acc@);
                    let ghost prev_rest = model_fields(rest@);
                    proof {
                        crate::value::lemma_model_fields_len(rest@);
                    }
                    let ghost rest_vec = rest@;
                    let (key, val) = rest.remove(0);
                    proof {
                        crate::value::lemma_model_fields_len(rest@);
                        assert(rest@ =~= rest_vec.drop_first());
                        crate::value::lemma_model_fields_len(rest_vec);
                        assert(model_fields(rest@) =~= prev_rest.drop_first());
                        assert(prev_rest[0] == (key@, val.model()));
                    }
                    crate::value::upsert_field(&mut acc, key, val);
                    proof {
                        assert(merge_fields_model(prev_acc, prev_rest) == merge_fields_model(
                            upsert_model(prev_acc, key@, val.model()),
                            prev_rest.drop_first(),
                        ));
                        assert(model_fields(acc@) == upsert_model(prev_acc, key@, val.model()));
                    }
                }
                proof {
                    assert(model_fields(rest@) =~= Seq::<(Seq<char>, ValModel)>::empty());
                }
                ConfigValue::Obj(acc)
            },
            other => other,
        },
        _ => over,
    }
}

/// Loads an ordered list of candidate sources, exactly as `spec_load`
/// says: absent sources are skipped, present ones parsed and merged
/// left to right, and the first syntax error ends the load with the
/// offending source named.
pub fn load_sources(sources: &Vec<Option<String>>) -> (r: Result<ConfigValue, LoadError>)
    ensures
        match r {
            Ok(v) => spec_load(sources.deep_view()) == LoadResult::Loaded(v.model()),
            Err(e) => spec_load(sources.deep_view()) == (LoadResult::Failed {
                source: e.source as int,
                at: e.at as int,
            }),
        },
{
    let ghost dv = sources.deep_view();
    let mut acc = ConfigValue::Obj(Vec::new());
    proof {
        assert(model_fields(Seq::<(String, ConfigValue)>::empty())
            =~= Seq::<(Seq<char>, ValModel)>::empty());
        assert(acc.model() == empty_snapshot());
    }
    let n = sources.len();
    let mut idx: usize = 0;
    while idx < n
        invariant
            n == sources.len(),
            0 <= idx <= n,
            dv == sources.deep_view(),
            dv.len() == n,
            spec_load_from(acc.model(), dv, idx as int) == spec_load(dv),
        decreases n - idx,
    {
        proof {
            assert(dv[idx as int] == sources@[idx as int].deep_view());
        }
        match &sources[idx] {
            Option::None => {},
            Option::Some(text) => {
                match parse_text(text.as_str()) {
                    Ok(v) => {
                        acc = merge_values(acc, v);
                    },
                    Err(pe) => {
                        return Err(LoadError { source: idx, at: pe.at });
                    },
                }
            },
        }
        idx = idx + 1;
    }
    Ok(acc)
}

/// Merging keeps well-formedness: merged field lists stay quote-free,
/// well-formed and key-unique.
proof fn lemma_merge_fields_wf(
    base: Seq<(Seq<char>, ValModel)>,
    over: Seq<(Seq<char>, ValModel)>,
)
    requires
        crate::json::wf_fields(base),
        keys_unique(base),
        crate::json::wf_fields(over),
    ensures
        crate::json::wf_fields(merge_fields_model(base, over)),
        keys_unique(merge_fields_model(base, over)),
    decreases over.len(),
{
    if over.len() > 0 {
        crate::json::lemma_wf_fields_index(over, 0);
        crate::json::lemma_upsert_wf(base, over[0].0, over[0].1);
        crate::json::lemma_wf_fields_pointwise(over);
        let rest = over.drop_first();
        assert(forall|j: int| 0 <= j < rest.len() ==> rest[j] == over[j + 1]);
        crate::json::lemma_wf_fields_pointwise(rest);
        lemma_merge_fields_wf(upsert_model(base, over[0].0, over[0].1), rest);
    }
}

/// Merging two well-formed snapshots yields a well-formed snapshot.
pub proof fn lemma_merge_wf(base: ValModel, over: ValModel)
    requires
        crate::json::wf_model(base),
        crate::json::wf_model(over),
    ensures
        crate::json::wf_model(spec_merge(base, over)),
{
    match base {
        ValModel::Obj(bf) => match over {
            ValModel::Obj(of) => {
                lemma_merge_fields_wf(bf, of);
            },
            _ => {},
        },
        _ => {},
    }
}

proof fn lemma_load_from_wf(acc: ValModel, sources: Seq<Option<Seq<char>>>, idx: int)
    requires
        crate::json::wf_model(acc),
    ensures
        spec_load_from(acc, sources, idx) matches LoadResult::Loaded(m) ==> crate::json::wf_model(
            m,
        ),
    decreases sources.len() - idx,
{
    if 0 <= idx < sources.len() {
        match sources[idx] {
            None => {
                lemma_load_from_wf(acc, sources, idx + 1);
            },
            Some(text) => {
                crate::json::lemma_parsed_is_wf(text);
                match crate::json::spec_doc(text) {
                    Parsed::Found { v, next } => {
                        lemma_merge_wf(acc, v);
                        lemma_load_from_wf(spec_merge(acc, v), sources, idx + 1);
                    },
                    Parsed::Fail { at } => {},
                }
            },
        }
    }
}

/// Every snapshot a load produces is grammar-well-formed, so it can
/// be printed as a source text and read back unchanged.
pub proof fn lemma_loaded_is_wf(sources: Seq<Option<Seq<char>>>)
    ensures
        spec_load(sources) matches LoadResult::Loaded(m) ==> crate::json::wf_model(m),
{
    assert(crate::json::wf_fields(Seq::<(Seq<char>, ValModel)>::empty()));
    assert(crate::json::wf_model(empty_snapshot()));
    lemma_load_from_wf(empty_snapshot(), sources, 0);
}

/// The layered sources of the dynamic client configuration, in merge
/// order: the machine-wide file first, then the deployment's, then
/// the local override.
pub fn client_config_paths() -> (r: Vec<String>)
    ensures
        r.deep_view() =~= seq![
            "/etc/kube-eye-export-server/client_config.json"@,
            "configs/client_config.json"@,
            "configs/local_client_config.json"@,
        ],
{
    let mut out: Vec<String> = Vec::new();
    out.push(String::from_str("/etc/kube-eye-export-server/client_config.json"));
    out.push(String::from_str("configs/client_config.json"));
    out.push(String::from_str("configs/local_client_config.json"));
    proof {
        assert(out.deep_view() =~= seq![
            "/etc/kube-eye-export-server/client_config.json"@,
            "configs/client_config.json"@,
            "configs/local_client_config.json"@,
        ]);
    }
    out
}

/// The layered sources of the static server configuration, in merge
/// order.
pub fn server_config_paths() -> (r: Vec<String>)
    ensures
        r.deep_view() =~= seq![
            "/etc/kube-eye-export-server/Config.json"@,
            "Config.json"@,
            "configs/Config.json"@,
        ],
{
    let mut out: Vec<String> = Vec::new();
    out.push(String::from_str("/etc/kube-eye-export-server/Config.json"));
    out.push(String::from_str("Config.json"));
    out.push(String::from_str("configs/Config.json"));
    proof {
        assert(out.deep_view() =~= seq![
            "/etc/kube-eye-export-server/Config.json"@,
            "Config.json"@,
            "configs/Config.json"@,
        ]);
    }
    out
}

} // verus!
