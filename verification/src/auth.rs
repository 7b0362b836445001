//! Token-gate decisions: whether a request may pass, from its
//! authorization header alone.

use vstd::prelude::*;

use crate::config::conf_lookup;
use crate::error::Error;
use crate::value::get_field;
use crate::value::model_fields;
use crate::value::ConfigValue;
use crate::value::ValModel;

verus! {

/// Who a request belongs to.
#[derive(Debug, Clone, PartialEq, Eq)]
pub struct AuthInfo {
    pub user_id: String,
}

/// Decides whether a request may pass: it may exactly when it
/// carries an authorization header — the header's content is not
/// inspected — and is otherwise turned away as unauthorized.
pub fn check_auth(header: Option<&String>) -> (r: Result<(), Error>)
    ensures
        r is Ok <==> header is Some,
        r matches Err(e) ==> e == Error::MissingAuth,
{
    match header {
        Some(value) => Ok(()),
        None => Err(Error::MissingAuth),
    }
}

/// The value an `AuthInfo` is sent as: one object binding the user's
/// id.
pub open spec fn auth_info_value(info: AuthInfo) -> ValModel {
    ValModel::Obj(seq![("user_id"@, ValModel::Str(info.user_id@))])
}

/// Writes an `AuthInfo` as a configuration value, for the wire.
pub fn auth_info_to_value(info: &AuthInfo) -> (v: ConfigValue)
    ensures
        v.model() == auth_info_value(*info),
{
    let mut fields: Vec<(String, ConfigValue)> = Vec::new();
    let key = String::from_str("user_id");
    let val = ConfigValue::Str(info.user_id.clone());
    proof {
        assert(model_fields(fields@) =~= Seq::<(Seq<char>, ValModel)>::empty());
        crate::value::lemma_model_fields_push(fields@, key, val);
    }
    fields.push((key, val));
    proof {
        assert(model_fields(fields@) =~= seq![("user_id"@, ValModel::Str(info.user_id@))]);
    }
    ConfigValue::Obj(fields)
}

/// Reads an `AuthInfo` back out of a configuration value: the string
/// under `user_id`, where there is one.
pub fn auth_info_from_value(v: &ConfigValue) -> (r: Option<AuthInfo>)
    ensures
        match r {
            Some(info) => conf_lookup(v.model(), "user_id"@) == Some(
                ValModel::Str(info.user_id@),
            ),
            None => match conf_lookup(v.model(), "user_id"@) {
                Some(m) => !(m is Str),
                None => true,
            },
        },
{
    match v {
        ConfigValue::Obj(fields) => match get_field(fields, &String::from_str("user_id")) {
            Some(ConfigValue::Str(s)) => Some(AuthInfo { user_id: s.clone() }),
            Some(other) => None,
            None => None,
        },
        _ => None,
    }
}

} // verus!
