//! The dynamic client-facing configuration.
//!
//! Its shape is defined by the operator's files at runtime, so the
//! core carries it as an opaque structured value, republished on
//! every successful reload and never interpreted here.  The legacy
//! fixed-shape form is kept alongside for compatibility.

use vstd::prelude::*;

use crate::config::conf_lookup;
use crate::config::spec_str_map;
use crate::config::str_map_value;
use crate::value::get_field;
use crate::value::model_fields;
use crate::value::ConfigValue;
use crate::value::ValModel;

verus! {

/// Dynamic client-side configuration; its shape is defined by the
/// operator's sources at runtime.
pub type ClientConfig = ConfigValue;

/// Legacy structured client config; kept for compatibility or
/// reference.
#[derive(Debug, Clone, PartialEq, Eq)]
pub struct LegacyClientConfig {
    pub report_title: Vec<(String, String)>,
}

/// The value a legacy config is sent as: one object binding its
/// titles by language.
pub open spec fn legacy_value(c: LegacyClientConfig) -> ValModel {
    ValModel::Obj(seq![("report_title"@, str_map_value(c.report_title.deep_view()))])
}

/// Writes a legacy config as a configuration value, for the wire.
pub fn legacy_to_value(c: &LegacyClientConfig) -> (v: ConfigValue)
    ensures
        v.model() == legacy_value(*c),
{
    let mut titles: Vec<(String, ConfigValue)> = Vec::new();
    let n = c.report_title.len();
    let mut i: usize = 0;
    while i < n
        invariant
            n == c.report_title.len(),
            0 <= i <= n,
            titles@.len() == i,
            forall|j: int|
                0 <= j < i ==> (titles@[j].0@, titles@[j].1.model()) == (
                c.report_title@[j].0@,
                ValModel::Str(c.report_title@[j].1@),
                ),
        decreases n - i,
    {
        let key = c.report_title[i].0.clone();
        let val = ConfigValue::Str(c.report_title[i].1.clone());
        titles.push((key, val));
        i = i + 1;
    }
    proof {
        crate::value::lemma_model_fields_len(titles@);
        assert(model_fields(titles@) =~= str_map_value(c.report_title.deep_view())->Obj_0);
    }
    let inner = ConfigValue::Obj(titles);
    let ghost inner_model = inner.model();
    let mut fields: Vec<(String, ConfigValue)> = Vec::new();
    let key = String::from_str("report_title");
    proof {
        assert(model_fields(fields@) =~= Seq::<(Seq<char>, ValModel)>::empty());
        crate::value::lemma_model_fields_push(fields@, key, inner);
    }
    fields.push((key, inner));
    proof {
        assert(model_fields(fields@) =~= seq![("report_title"@, inner_model)]);
    }
    ConfigValue::Obj(fields)
}

/// Reads a legacy config back out of a configuration value: the
/// string map under `report_title`, where there is one.
pub fn legacy_from_value(v: &ConfigValue) -> (r: Option<LegacyClientConfig>)
    ensures
        match r {
            Some(c) => conf_lookup(v.model(), "report_title"@) matches Some(m) && spec_str_map(m)
                == Some(c.report_title.deep_view()),
            None => match conf_lookup(v.model(), "report_title"@) {
                Some(m) => spec_str_map(m) is None,
                None => true,
            },
        },
{
    match v {
        ConfigValue::Obj(fields) => match get_field(fields, &String::from_str("report_title")) {
            Some(m) => match crate::config::as_str_map(m) {
                Some(titles) => Some(LegacyClientConfig { report_title: titles }),
                None => None,
            },
            None => None,
        },
        _ => None,
    }
}

} // verus!
