//! The server's static configuration: its typed shape, and how it is
//! read out of a loaded configuration value.
//!
//! The maps the schema keeps — themes by name, the icon/font
//! registry, a theme's templates — are ordered association lists with
//! string keys, looked up first-match; the loader builds them with
//! unique keys.  Reading the schema is exact: for every loaded value
//! the specification functions here say whether it fits and, where it
//! does, which configuration it denotes.

use vstd::prelude::*;

use crate::error::Error;
use crate::loader::load_sources;
use crate::loader::spec_load;
use crate::loader::LoadResult;
use crate::value::get_field;
use crate::value::lemma_model_elems_len;
use crate::value::lemma_model_fields_len;
use crate::value::lookup_model;
use crate::value::model_elems;
use crate::value::model_fields;
use crate::value::ConfigValue;
use crate::value::ValModel;

verus! {

/// One theme: the fonts it wants from the icon/font registry, and its
/// templates by logical name.  Both default to empty when a theme's
/// source object leaves them out.
#[derive(Debug, PartialEq, Eq)]
pub struct Theme {
    pub icons: Vec<String>,
    pub themplates: Vec<(String, String)>,
}

/// The HTTP server's own settings.
#[derive(Debug, PartialEq, Eq)]
pub struct ServerConfig {
    pub host: String,
    pub port: u16,
    pub public_dir_dist: Vec<(String, String)>,
}

/// The document-rendering settings: the asset root, the themes, and
/// the icon/font registry mapping font names to relative paths.
#[derive(Debug, PartialEq, Eq)]
pub struct TypstConfig {
    pub assets_dir: String,
    pub themes: Vec<(String, Theme)>,
    pub icons: Vec<(String, String)>,
}

/// The whole static configuration.
#[derive(Debug, PartialEq, Eq)]
pub struct Config {
    pub server: ServerConfig,
    pub typst: TypstConfig,
}

/// The model of a `Theme`.
pub struct ThemeModel {
    pub icons: Seq<Seq<char>>,
    pub themplates: Seq<(Seq<char>, Seq<char>)>,
}

/// The model of a `ServerConfig`.
pub struct ServerModel {
    pub host: Seq<char>,
    pub port: int,
    pub public_dir_dist: Seq<(Seq<char>, Seq<char>)>,
}

/// The model of a `TypstConfig`.
pub struct TypstModel {
    pub assets_dir: Seq<char>,
    pub themes: Seq<(Seq<char>, ThemeModel)>,
    pub icons: Seq<(Seq<char>, Seq<char>)>,
}

/// The model of a `Config`.
pub struct ConfigModel {
    pub server: ServerModel,
    pub typst: TypstModel,
}

impl View for Theme {
    type V = ThemeModel;

    open spec fn view(&self) -> ThemeModel {
        ThemeModel { icons: self.icons.deep_view(), themplates: self.themplates.deep_view() }
    }
}

/// The models of an ordered list of named themes.
pub open spec fn theme_entries_view(ts: Seq<(String, Theme)>) -> Seq<(Seq<char>, ThemeModel)> {
    Seq::new(ts.len(), |i: int| (ts[i].0@, ts[i].1@))
}

impl View for ServerConfig {
    type V = ServerModel;

    open spec fn view(&self) -> ServerModel {
        ServerModel {
            host: self.host@,
            port: self.port as int,
            public_dir_dist: self.public_dir_dist.deep_view(),
        }
    }
}

impl View for TypstConfig {
    type V = TypstModel;

    open spec fn view(&self) -> TypstModel {
        TypstModel {
            assets_dir: self.assets_dir@,
            themes: theme_entries_view(self.themes@),
            icons: self.icons.deep_view(),
        }
    }
}

impl View for Config {
    type V = ConfigModel;

    open spec fn view(&self) -> ConfigModel {
        ConfigModel { server: self.server@, typst: self.typst@ }
    }
}

/// The fields of an object value.
pub open spec fn as_obj(m: ValModel) -> Option<Seq<(Seq<char>, ValModel)>> {
    match m {
        ValModel::Obj(fs) => Some(fs),
        _ => None,
    }
}

/// The value under `key` in an object value.
pub open spec fn conf_lookup(m: ValModel, key: Seq<char>) -> Option<ValModel> {
    match as_obj(m) {
        Some(fs) => lookup_model(fs, key),
        None => None,
    }
}

/// An array of strings, as their texts.
pub open spec fn str_list_of(es: Seq<ValModel>) -> Option<Seq<Seq<char>>>
    decreases es.len(),
{
    if es.len() == 0 {
        Some(Seq::empty())
    } else {
        match str_list_of(es.drop_last()) {
            None => None,
            Some(r) => match es.last() {
                ValModel::Str(s) => Some(r.push(s)),
                _ => None,
            },
        }
    }
}

pub open spec fn spec_str_list(m: ValModel) -> Option<Seq<Seq<char>>> {
    match m {
        ValModel::Arr(es) => str_list_of(es),
        _ => None,
    }
}

/// An object whose values are all strings, as ordered bindings.
pub open spec fn str_map_of(fs: Seq<(Seq<char>, ValModel)>) -> Option<
    Seq<(Seq<char>, Seq<char>)>,
>
    decreases fs.len(),
{
    if fs.len() == 0 {
        Some(Seq::empty())
    } else {
        match str_map_of(fs.drop_last()) {
            None => None,
            Some(r) => match fs.last().1 {
                ValModel::Str(s) => Some(r.push((fs.last().0, s))),
                _ => None,
            },
        }
    }
}

pub open spec fn spec_str_map(m: ValModel) -> Option<Seq<(Seq<char>, Seq<char>)>> {
    match m {
        ValModel::Obj(fs) => str_map_of(fs),
        _ => None,
    }
}

/// A two-element array of strings.
pub open spec fn spec_str_pair(m: ValModel) -> Option<(Seq<char>, Seq<char>)> {
    match m {
        ValModel::Arr(es) => if es.len() == 2 {
            match es[0] {
                ValModel::Str(a) => match es[1] {
                    ValModel::Str(b) => Some((a, b)),
                    _ => None,
                },
                _ => None,
            }
        } else {
            None
        },
        _ => None,
    }
}

/// An array of two-element string arrays.
pub open spec fn pair_list_of(es: Seq<ValModel>) -> Option<Seq<(Seq<char>, Seq<char>)>>
    decreases es.len(),
{
    if es.len() == 0 {
        Some(Seq::empty())
    } else {
        match pair_list_of(es.drop_last()) {
            None => None,
            Some(r) => match spec_str_pair(es.last()) {
                Some(p) => Some(r.push(p)),
                None => None,
            },
        }
    }
}

pub open spec fn spec_pair_list(m: ValModel) -> Option<Seq<(Seq<char>, Seq<char>)>> {
    match m {
        ValModel::Arr(es) => pair_list_of(es),
        _ => None,
    }
}

/// The theme an object value denotes: `icons` an array of font names
/// and `themplates` an object of template paths, each empty when
/// absent.
pub open spec fn spec_theme(m: ValModel) -> Option<ThemeModel> {
    match as_obj(m) {
        None => None,
        Some(fs) => {
            let icons = match lookup_model(fs, "icons"@) {
                None => Some(Seq::<Seq<char>>::empty()),
                Some(v) => spec_str_list(v),
            };
            let tpls = match lookup_model(fs, "themplates"@) {
                None => Some(Seq::<(Seq<char>, Seq<char>)>::empty()),
                Some(v) => spec_str_map(v),
            };
            match icons {
                None => None,
                Some(il) => match tpls {
                    None => None,
                    Some(tl) => Some(ThemeModel { icons: il, themplates: tl }),
                },
            }
        },
    }
}

/// An object of themes, by name.
pub open spec fn theme_map_of(fs: Seq<(Seq<char>, ValModel)>) -> Option<
    Seq<(Seq<char>, ThemeModel)>,
>
    decreases fs.len(),
{
    if fs.len() == 0 {
        Some(Seq::empty())
    } else {
        match theme_map_of(fs.drop_last()) {
            None => None,
            Some(r) => match spec_theme(fs.last().1) {
                Some(t) => Some(r.push((fs.last().0, t))),
                None => None,
            },
        }
    }
}

pub open spec fn spec_theme_map(m: ValModel) -> Option<Seq<(Seq<char>, ThemeModel)>> {
    match m {
        ValModel::Obj(fs) => theme_map_of(fs),
        _ => None,
    }
}

/// The server settings a value denotes: `host` a string, `port` an
/// integer that fits a port number, `public_dir_dist` a list of
/// directory/route pairs — all required.
pub open spec fn spec_server(m: ValModel) -> Option<ServerModel> {
    match conf_lookup(m, "host"@) {
        Some(ValModel::Str(h)) => match conf_lookup(m, "port"@) {
            Some(ValModel::Int(p)) => if 0 <= p <= 65535 {
                match conf_lookup(m, "public_dir_dist"@) {
                    Some(d) => match spec_pair_list(d) {
                        Some(dirs) => Some(
                            ServerModel { host: h, port: p, public_dir_dist: dirs },
                        ),
                        None => None,
                    },
                    None => None,
                }
            } else {
                None
            },
            _ => None,
        },
        _ => None,
    }
}

/// The rendering settings a value denotes: `assets_dir` a string,
/// `themes` an object of themes, `icons` an object of font paths —
/// all required.
pub open spec fn spec_typst(m: ValModel) -> Option<TypstModel> {
    match conf_lookup(m, "assets_dir"@) {
        Some(ValModel::Str(a)) => match conf_lookup(m, "themes"@) {
            Some(tv) => match spec_theme_map(tv) {
                Some(ts) => match conf_lookup(m, "icons"@) {
                    Some(iv) => match spec_str_map(iv) {
                        Some(ic) => Some(
                            TypstModel { assets_dir: a, themes: ts, icons: ic },
                        ),
                        None => None,
                    },
                    None => None,
                },
                None => None,
            },
            None => None,
        },
        _ => None,
    }
}

/// The whole configuration a value denotes: its `server` and `typst`
/// sections, both required.
pub open spec fn spec_config(m: ValModel) -> Option<ConfigModel> {
    match conf_lookup(m, "server"@) {
        Some(sv) => match spec_server(sv) {
            Some(sm) => match conf_lookup(m, "typst"@) {
                Some(tv) => match spec_typst(tv) {
                    Some(tm) => Some(ConfigModel { server: sm, typst: tm }),
                    None => None,
                },
                None => None,
            },
            None => None,
        },
        None => None,
    }
}

/// An object value binding each entry's key to its text.
pub open spec fn str_map_value(entries: Seq<(Seq<char>, Seq<char>)>) -> ValModel {
    ValModel::Obj(Seq::new(entries.len(), |i: int| (entries[i].0, ValModel::Str(entries[i].1))))
}

/// An array value of strings.
pub open spec fn str_list_value(items: Seq<Seq<char>>) -> ValModel {
    ValModel::Arr(Seq::new(items.len(), |i: int| ValModel::Str(items[i])))
}

/// A two-element array value of strings.
pub open spec fn pair_value(p: (Seq<char>, Seq<char>)) -> ValModel {
    ValModel::Arr(seq![ValModel::Str(p.0), ValModel::Str(p.1)])
}

/// The value a theme is written as.
pub open spec fn theme_value(t: ThemeModel) -> ValModel {
    ValModel::Obj(
        seq![
            ("icons"@, str_list_value(t.icons)),
            ("themplates"@, str_map_value(t.themplates)),
        ],
    )
}

/// The value the server section is written as.
pub open spec fn server_value(s: ServerModel) -> ValModel {
    ValModel::Obj(
        seq![
            ("host"@, ValModel::Str(s.host)),
            ("port"@, ValModel::Int(s.port)),
            (
                "public_dir_dist"@,
                ValModel::Arr(
                    Seq::new(s.public_dir_dist.len(), |i: int| pair_value(s.public_dir_dist[i])),
                ),
            ),
        ],
    )
}

/// The value the rendering section is written as.
pub open spec fn typst_value(t: TypstModel) -> ValModel {
    ValModel::Obj(
        seq![
            ("assets_dir"@, ValModel::Str(t.assets_dir)),
            (
                "themes"@,
                ValModel::Obj(
                    Seq::new(t.themes.len(), |i: int| (t.themes[i].0, theme_value(t.themes[i].1))),
                ),
            ),
            ("icons"@, str_map_value(t.icons)),
        ],
    )
}

/// The value a whole configuration is written as.
pub open spec fn config_value(c: ConfigModel) -> ValModel {
    ValModel::Obj(
        seq![("server"@, server_value(c.server)), ("typst"@, typst_value(c.typst))],
    )
}

/// Where the server section does not fit, the field the error names:
/// the first of `host`, `port`, `public_dir_dist` that is missing or
/// mistyped, in reading order.
pub open spec fn spec_server_error_field(m: ValModel) -> Seq<char> {
    match conf_lookup(m, "host"@) {
        Some(ValModel::Str(h)) => match conf_lookup(m, "port"@) {
            Some(ValModel::Int(p)) => if 0 <= p <= 65535 {
                "public_dir_dist"@
            } else {
                "port"@
            },
            _ => "port"@,
        },
        _ => "host"@,
    }
}

/// Where the rendering section does not fit, the field the error
/// names: the first of `assets_dir`, `themes`, `icons` that is
/// missing or mistyped, in reading order.
pub open spec fn spec_typst_error_field(m: ValModel) -> Seq<char> {
    match conf_lookup(m, "assets_dir"@) {
        Some(ValModel::Str(a)) => match conf_lookup(m, "themes"@) {
            Some(tv) => match spec_theme_map(tv) {
                Some(ts) => "icons"@,
                None => "themes"@,
            },
            None => "themes"@,
        },
        _ => "assets_dir"@,
    }
}

/// Where a loaded value does not denote a configuration, the field
/// the schema error names.
pub open spec fn spec_config_error_field(m: ValModel) -> Seq<char> {
    match conf_lookup(m, "server"@) {
        None => "server"@,
        Some(sv) => match spec_server(sv) {
            None => spec_server_error_field(sv),
            Some(sm) => match conf_lookup(m, "typst"@) {
                None => "typst"@,
                Some(tv) => spec_typst_error_field(tv),
            },
        },
    }
}

proof fn lemma_str_list_none(es: Seq<ValModel>, i: int)
    requires
        0 <= i < es.len(),
        !(es[i] is Str),
    ensures
        str_list_of(es) is None,
    decreases es.len(),
{
    if i < es.len() - 1 {
        assert(es.drop_last()[i] == es[i]);
        lemma_str_list_none(es.drop_last(), i);
    }
}

proof fn lemma_str_map_none(fs: Seq<(Seq<char>, ValModel)>, i: int)
    requires
        0 <= i < fs.len(),
        !(fs[i].1 is Str),
    ensures
        str_map_of(fs) is None,
    decreases fs.len(),
{
    if i < fs.len() - 1 {
        assert(fs.drop_last()[i] == fs[i]);
        lemma_str_map_none(fs.drop_last(), i);
    }
}

proof fn lemma_pair_list_none(es: Seq<ValModel>, i: int)
    requires
        0 <= i < es.len(),
        spec_str_pair(es[i]) is None,
    ensures
        pair_list_of(es) is None,
    decreases es.len(),
{
    if i < es.len() - 1 {
        assert(es.drop_last()[i] == es[i]);
        lemma_pair_list_none(es.drop_last(), i);
    }
}

proof fn lemma_theme_map_none(fs: Seq<(Seq<char>, ValModel)>, i: int)
    requires
        0 <= i < fs.len(),
        spec_theme(fs[i].1) is None,
    ensures
        theme_map_of(fs) is None,
    decreases fs.len(),
{
    if i < fs.len() - 1 {
        assert(fs.drop_last()[i] == fs[i]);
        lemma_theme_map_none(fs.drop_last(), i);
    }
}

/// Reads an array of strings.
#[verifier::loop_isolation(false)]
fn as_str_list(v: &ConfigValue) -> (r: Option<Vec<String>>)
    ensures
        match r {
            Some(l) => spec_str_list(v.model()) == Some(l.deep_view()),
            None => spec_str_list(v.model()) is None,
        },
{
    match v {
        ConfigValue::Arr(items) => {
            let ghost es = model_elems(items@);
            proof {
                lemma_model_elems_len(items@);
            }
            let n = items.len();
            let mut out: Vec<String> = Vec::new();
            let mut i: usize = 0;
            while i < n
                invariant
                    n == items.len(),
                    0 <= i <= n,
                    es == model_elems(items@),
                    es.len() == n,
                    forall|j: int| 0 <= j < n ==> es[j] == items@[j].model(),
                    str_list_of(es.subrange(0, i as int)) == Some(out.deep_view()),
                decreases n - i,
            {
                match &items[i] {
                    ConfigValue::Str(s) => {
                        let ghost before = es.subrange(0, i as int);
                        let ghost after = es.subrange(0, i + 1);
                        let ghost prev_deep = out.deep_view();
                        proof {
                            assert(after.drop_last() =~= before);
                            assert(after.last() == es[i as int]);
                        }
                        out.push(s.clone());
                        proof {
                            assert(out.deep_view() =~= prev_deep.push(s@));
                        }
                    },
                    _ => {
                        proof {
                            lemma_str_list_none(es, i as int);
                        }
                        return None;
                    },
                }
                i = i + 1;
            }
            proof {
                assert(es.subrange(0, es.len() as int) =~= es);
            }
            Some(out)
        },
        _ => None,
    }
}

/// Reads an object of strings as ordered bindings.
#[verifier::loop_isolation(false)]
pub(crate) fn as_str_map(v: &ConfigValue) -> (r: Option<Vec<(String, String)>>)
    ensures
        match r {
            Some(l) => spec_str_map(v.model()) == Some(l.deep_view()),
            None => spec_str_map(v.model()) is None,
        },
{
    match v {
        ConfigValue::Obj(fields) => {
            let ghost fs = model_fields(fields@);
            proof {
                lemma_model_fields_len(fields@);
            }
            let n = fields.len();
            let mut out: Vec<(String, String)> = Vec::new();
            let mut i: usize = 0;
            while i < n
                invariant
                    0 <= i <= n,
                    str_map_of(fs.subrange(0, i as int)) == Some(out.deep_view()),
                decreases n - i,
            {
                match &fields[i].1 {
                    ConfigValue::Str(s) => {
                        let ghost before = fs.subrange(0, i as int);
                        let ghost after = fs.subrange(0, i + 1);
                        let ghost prev_deep = out.deep_view();
                        proof {
                            assert(after.drop_last() =~= before);
                            assert(after.last() == fs[i as int]);
                        }
                        let key = fields[i].0.clone();
                        out.push((key, s.clone()));
                        proof {
                            assert(out.deep_view() =~= prev_deep.push(
                                (fields@[i as int].0@, s@),
                            ));
                        }
                    },
                    _ => {
                        proof {
                            lemma_str_map_none(fs, i as int);
                        }
                        return None;
                    },
                }
                i = i + 1;
            }
            proof {
                assert(fs.subrange(0, fs.len() as int) =~= fs);
            }
            Some(out)
        },
        _ => None,
    }
}

/// Reads a two-element array of strings.
fn as_str_pair(v: &ConfigValue) -> (r: Option<(String, String)>)
    ensures
        match r {
            Some(p) => spec_str_pair(v.model()) == Some((p.0@, p.1@)),
            None => spec_str_pair(v.model()) is None,
        },
{
    match v {
        ConfigValue::Arr(items) => {
            proof {
                lemma_model_elems_len(items@);
            }
            if items.len() != 2 {
                return None;
            }
            match &items[0] {
                ConfigValue::Str(a) => match &items[1] {
                    ConfigValue::Str(b) => Some((a.clone(), b.clone())),
                    _ => None,
                },
                _ => None,
            }
        },
        _ => None,
    }
}

/// Reads an array of directory/route pairs.
#[verifier::loop_isolation(false)]
fn as_pair_list(v: &ConfigValue) -> (r: Option<Vec<(String, String)>>)
    ensures
        match r {
            Some(l) => spec_pair_list(v.model()) == Some(l.deep_view()),
            None => spec_pair_list(v.model()) is None,
        },
{
    match v {
        ConfigValue::Arr(items) => {
            let ghost es = model_elems(items@);
            proof {
                lemma_model_elems_len(items@);
            }
            let n = items.len();
            let mut out: Vec<(String, String)> = Vec::new();
            let mut i: usize = 0;
            while i < n
                invariant
                    0 <= i <= n,
                    pair_list_of(es.subrange(0, i as int)) == Some(out.deep_view()),
                decreases n - i,
            {
                match as_str_pair(&items[i]) {
                    Some(p) => {
                        let ghost before = es.subrange(0, i as int);
                        let ghost after = es.subrange(0, i + 1);
                        let ghost prev_deep = out.deep_view();
                        proof {
                            assert(after.drop_last() =~= before);
                            assert(after.last() == es[i as int]);
                        }
                        out.push(p);
                        proof {
                            assert(out.deep_view() =~= prev_deep.push(
                                (out@[out@.len() - 1].0@, out@[out@.len() - 1].1@),
                            ));
                        }
                    },
                    None => {
                        proof {
                            lemma_pair_list_none(es, i as int);
                        }
                        return None;
                    },
                }
                i = i + 1;
            }
            proof {
                assert(es.subrange(0, es.len() as int) =~= es);
            }
            Some(out)
        },
        _ => None,
    }
}

/// Reads one theme.
pub fn theme_from_value(v: &ConfigValue) -> (r: Option<Theme>)
    ensures
        match r {
            Some(t) => spec_theme(v.model()) == Some(t@),
            None => spec_theme(v.model()) is None,
        },
{
    match v {
        ConfigValue::Obj(fields) => {
            let icons: Vec<String> = match get_field(fields, &String::from_str("icons")) {
                None => {
                    let empty: Vec<String> = Vec::new();
                    proof {
                        assert(empty.deep_view() =~= Seq::<Seq<char>>::empty());
                    }
                    empty
                },
                Some(iv) => match as_str_list(iv) {
                    Some(l) => l,
                    None => {
                        return None;
                    },
                },
            };
            let themplates: Vec<(String, String)> = match get_field(
                fields,
                &String::from_str("themplates"),
            ) {
                None => {
                    let empty: Vec<(String, String)> = Vec::new();
                    proof {
                        assert(empty.deep_view() =~= Seq::<(Seq<char>, Seq<char>)>::empty());
                    }
                    empty
                },
                Some(tv) => match as_str_map(tv) {
                    Some(l) => l,
                    None => {
                        return None;
                    },
                },
            };
            Some(Theme { icons, themplates })
        },
        _ => None,
    }
}

/// Reads an object of themes, by name.
#[verifier::loop_isolation(false)]
fn themes_from_value(v: &ConfigValue) -> (r: Option<Vec<(String, Theme)>>)
    ensures
        match r {
            Some(ts) => spec_theme_map(v.model()) == Some(theme_entries_view(ts@)),
            None => spec_theme_map(v.model()) is None,
        },
{
    match v {
        ConfigValue::Obj(fields) => {
            let ghost fs = model_fields(fields@);
            proof {
                lemma_model_fields_len(fields@);
            }
            let n = fields.len();
            let mut out: Vec<(String, Theme)> = Vec::new();
            let mut i: usize = 0;
            while i < n
                invariant
                    0 <= i <= n,
                    theme_map_of(fs.subrange(0, i as int)) == Some(theme_entries_view(out@)),
                decreases n - i,
            {
                match theme_from_value(&fields[i].1) {
                    Some(t) => {
                        let ghost before = fs.subrange(0, i as int);
                        let ghost after = fs.subrange(0, i + 1);
                        let ghost prev_entries = theme_entries_view(out@);
                        proof {
                            assert(after.drop_last() =~= before);
                            assert(after.last() == fs[i as int]);
                        }
                        let key = fields[i].0.clone();
                        let ghost tm = t@;
                        out.push((key, t));
                        proof {
                            assert(theme_entries_view(out@) =~= prev_entries.push(
                                (fields@[i as int].0@, tm),
                            ));
                        }
                    },
                    None => {
                        proof {
                            lemma_theme_map_none(fs, i as int);
                        }
                        return None;
                    },
                }
                i = i + 1;
            }
            proof {
                assert(fs.subrange(0, fs.len() as int) =~= fs);
            }
            Some(out)
        },
        _ => None,
    }
}

/// Reads the server section.
fn server_from_value(v: &ConfigValue) -> (r: Result<ServerConfig, Error>)
    ensures
        match r {
            Ok(c) => spec_server(v.model()) == Some(c@),
            Err(e) => e matches Error::ConfigSchema { field } && field@
                == spec_server_error_field(v.model()) && spec_server(v.model()) is None,
        },
{
    match v {
        ConfigValue::Obj(fields) => {
            let host: String = match get_field(fields, &String::from_str("host")) {
                Some(ConfigValue::Str(h)) => h.clone(),
                _ => {
                    return Err(Error::ConfigSchema { field: String::from_str("host") });
                },
            };
            let port: u16 = match get_field(fields, &String::from_str("port")) {
                Some(ConfigValue::Int(p)) => {
                    if 0 <= *p && *p <= 65535 {
                        *p as u16
                    } else {
                        return Err(Error::ConfigSchema { field: String::from_str("port") });
                    }
                },
                _ => {
                    return Err(Error::ConfigSchema { field: String::from_str("port") });
                },
            };
            let dirs: Vec<(String, String)> = match get_field(
                fields,
                &String::from_str("public_dir_dist"),
            ) {
                Some(d) => match as_pair_list(d) {
                    Some(l) => l,
                    None => {
                        return Err(
                            Error::ConfigSchema {
                                field: String::from_str("public_dir_dist"),
                            },
                        );
                    },
                },
                None => {
                    return Err(
                        Error::ConfigSchema { field: String::from_str("public_dir_dist") },
                    );
                },
            };
            Ok(ServerConfig { host, port, public_dir_dist: dirs })
        },
        _ => Err(Error::ConfigSchema { field: String::from_str("host") }),
    }
}

/// Reads the rendering section.
fn typst_from_value(v: &ConfigValue) -> (r: Result<TypstConfig, Error>)
    ensures
        match r {
            Ok(c) => spec_typst(v.model()) == Some(c@),
            Err(e) => e matches Error::ConfigSchema { field } && field@
                == spec_typst_error_field(v.model()) && spec_typst(v.model()) is None,
        },
{
    match v {
        ConfigValue::Obj(fields) => {
            let assets_dir: String = match get_field(fields, &String::from_str("assets_dir")) {
                Some(ConfigValue::Str(a)) => a.clone(),
                _ => {
                    return Err(Error::ConfigSchema { field: String::from_str("assets_dir") });
                },
            };
            let themes: Vec<(String, Theme)> = match get_field(
                fields,
                &String::from_str("themes"),
            ) {
                Some(tv) => match themes_from_value(tv) {
                    Some(ts) => ts,
                    None => {
                        return Err(Error::ConfigSchema { field: String::from_str("themes") });
                    },
                },
                None => {
                    return Err(Error::ConfigSchema { field: String::from_str("themes") });
                },
            };
            let icons: Vec<(String, String)> = match get_field(
                fields,
                &String::from_str("icons"),
            ) {
                Some(iv) => match as_str_map(iv) {
                    Some(ic) => ic,
                    None => {
                        return Err(Error::ConfigSchema { field: String::from_str("icons") });
                    },
                },
                None => {
                    return Err(Error::ConfigSchema { field: String::from_str("icons") });
                },
            };
            Ok(TypstConfig { assets_dir, themes, icons })
        },
        _ => Err(Error::ConfigSchema { field: String::from_str("assets_dir") }),
    }
}

/// Reads a whole configuration out of a loaded value: exactly the
/// configuration `spec_config` says the value denotes, or — when and
/// only when it denotes none — a schema error naming exactly the
/// field `spec_config_error_field` points at.
pub fn config_from_value(v: &ConfigValue) -> (r: Result<Config, Error>)
    ensures
        match r {
            Ok(c) => spec_config(v.model()) == Some(c@),
            Err(e) => e matches Error::ConfigSchema { field } && field@
                == spec_config_error_field(v.model()) && spec_config(v.model()) is None,
        },
{
    let fields = match v {
        ConfigValue::Obj(fields) => fields,
        _ => {
            return Err(
                Error::ConfigSchema { field: String::from_str("server") },
            );
        },
    };
    let server = match get_field(fields, &String::from_str("server")) {
        Some(sv) => match server_from_value(sv) {
            Ok(s) => s,
            Err(e) => {
                return Err(e);
            },
        },
        None => {
            return Err(Error::ConfigSchema { field: String::from_str("server") });
        },
    };
    let typst = match get_field(fields, &String::from_str("typst")) {
        Some(tv) => match typst_from_value(tv) {
            Ok(t) => t,
            Err(e) => {
                return Err(e);
            },
        },
        None => {
            return Err(Error::ConfigSchema { field: String::from_str("typst") });
        },
    };
    Ok(Config { server, typst })
}

/// Writes ordered string bindings as an object value.
pub(crate) fn str_map_to_value(entries: &Vec<(String, String)>) -> (v: ConfigValue)
    ensures
        v.model() == str_map_value(entries.deep_view()),
{
    let mut fields: Vec<(String, ConfigValue)> = Vec::new();
    let n = entries.len();
    let mut i: usize = 0;
    while i < n
        invariant
            n == entries.len(),
            0 <= i <= n,
            fields@.len() == i,
            forall|j: int|
                0 <= j < i ==> (fields@[j].0@, fields@[j].1.model()) == (
                entries@[j].0@,
                ValModel::Str(entries@[j].1@),
                ),
        decreases n - i,
    {
        let key = entries[i].0.clone();
        let val = ConfigValue::Str(entries[i].1.clone());
        fields.push((key, val));
        i = i + 1;
    }
    proof {
        lemma_model_fields_len(fields@);
        assert(model_fields(fields@) =~= str_map_value(entries.deep_view())->Obj_0);
    }
    ConfigValue::Obj(fields)
}

/// Writes strings as an array value.
fn str_list_to_value(items: &Vec<String>) -> (v: ConfigValue)
    ensures
        v.model() == str_list_value(items.deep_view()),
{
    let mut out: Vec<ConfigValue> = Vec::new();
    let n = items.len();
    let mut i: usize = 0;
    while i < n
        invariant
            n == items.len(),
            0 <= i <= n,
            out@.len() == i,
            forall|j: int| 0 <= j < i ==> out@[j].model() == ValModel::Str(items@[j]@),
        decreases n - i,
    {
        out.push(ConfigValue::Str(items[i].clone()));
        i = i + 1;
    }
    proof {
        lemma_model_elems_len(out@);
        assert(model_elems(out@) =~= str_list_value(items.deep_view())->Arr_0);
    }
    ConfigValue::Arr(out)
}

/// Writes directory/route pairs as an array of two-element arrays.
fn pairs_to_value(entries: &Vec<(String, String)>) -> (v: ConfigValue)
    ensures
        v.model() == ValModel::Arr(
            Seq::new(entries.deep_view().len(), |i: int| pair_value(entries.deep_view()[i])),
        ),
{
    let mut out: Vec<ConfigValue> = Vec::new();
    let n = entries.len();
    let mut i: usize = 0;
    while i < n
        invariant
            n == entries.len(),
            0 <= i <= n,
            out@.len() == i,
            forall|j: int|
                0 <= j < i ==> out@[j].model() == pair_value(
                    (entries@[j].0@, entries@[j].1@),
                ),
        decreases n - i,
    {
        let mut pair: Vec<ConfigValue> = Vec::new();
        pair.push(ConfigValue::Str(entries[i].0.clone()));
        pair.push(ConfigValue::Str(entries[i].1.clone()));
        let item = ConfigValue::Arr(pair);
        proof {
            lemma_model_elems_len(pair@);
            assert(model_elems(pair@) =~= seq![
                ValModel::Str(entries@[i as int].0@),
                ValModel::Str(entries@[i as int].1@),
            ]);
        }
        out.push(item);
        i = i + 1;
    }
    proof {
        lemma_model_elems_len(out@);
        assert(model_elems(out@) =~= Seq::new(
            entries.deep_view().len(),
            |i: int| pair_value(entries.deep_view()[i]),
        ));
    }
    ConfigValue::Arr(out)
}

/// Writes one theme as a value.
fn theme_to_value(t: &Theme) -> (v: ConfigValue)
    ensures
        v.model() == theme_value(t@),
{
    let mut fields: Vec<(String, ConfigValue)> = Vec::new();
    let k1 = String::from_str("icons");
    let v1 = str_list_to_value(&t.icons);
    let ghost m1 = v1.model();
    fields.push((k1, v1));
    let k2 = String::from_str("themplates");
    let v2 = str_map_to_value(&t.themplates);
    let ghost m2 = v2.model();
    fields.push((k2, v2));
    proof {
        lemma_model_fields_len(fields@);
        assert(model_fields(fields@) =~= seq![("icons"@, m1), ("themplates"@, m2)]);
    }
    ConfigValue::Obj(fields)
}

/// Writes the themes, by name, as an object value.
fn themes_to_value(ts: &Vec<(String, Theme)>) -> (v: ConfigValue)
    ensures
        v.model() == ValModel::Obj(
            Seq::new(
                theme_entries_view(ts@).len(),
                |i: int| (theme_entries_view(ts@)[i].0, theme_value(theme_entries_view(ts@)[i].1)),
            ),
        ),
{
    let mut fields: Vec<(String, ConfigValue)> = Vec::new();
    let n = ts.len();
    let mut i: usize = 0;
    while i < n
        invariant
            n == ts.len(),
            0 <= i <= n,
            fields@.len() == i,
            forall|j: int|
                0 <= j < i ==> (fields@[j].0@, fields@[j].1.model()) == (
                ts@[j].0@,
                theme_value(ts@[j].1@),
                ),
        decreases n - i,
    {
        let key = ts[i].0.clone();
        let val = theme_to_value(&ts[i].1);
        fields.push((key, val));
        i = i + 1;
    }
    proof {
        lemma_model_fields_len(fields@);
        assert(model_fields(fields@) =~= Seq::new(
            theme_entries_view(ts@).len(),
            |i: int| (theme_entries_view(ts@)[i].0, theme_value(theme_entries_view(ts@)[i].1)),
        ));
    }
    ConfigValue::Obj(fields)
}

/// Writes the server section as a value.
fn server_to_value(s: &ServerConfig) -> (v: ConfigValue)
    ensures
        v.model() == server_value(s@),
{
    let mut fields: Vec<(String, ConfigValue)> = Vec::new();
    let k1 = String::from_str("host");
    let v1 = ConfigValue::Str(s.host.clone());
    let ghost m1 = v1.model();
    fields.push((k1, v1));
    let k2 = String::from_str("port");
    let v2 = ConfigValue::Int(s.port as i64);
    let ghost m2 = v2.model();
    fields.push((k2, v2));
    let k3 = String::from_str("public_dir_dist");
    let v3 = pairs_to_value(&s.public_dir_dist);
    let ghost m3 = v3.model();
    fields.push((k3, v3));
    proof {
        lemma_model_fields_len(fields@);
        assert(model_fields(fields@) =~= seq![
            ("host"@, m1),
            ("port"@, m2),
            ("public_dir_dist"@, m3),
        ]);
    }
    ConfigValue::Obj(fields)
}

/// Writes the rendering section as a value.
fn typst_to_value(t: &TypstConfig) -> (v: ConfigValue)
    ensures
        v.model() == typst_value(t@),
{
    let mut fields: Vec<(String, ConfigValue)> = Vec::new();
    let k1 = String::from_str("assets_dir");
    let v1 = ConfigValue::Str(t.assets_dir.clone());
    let ghost m1 = v1.model();
    fields.push((k1, v1));
    let k2 = String::from_str("themes");
    let v2 = themes_to_value(&t.themes);
    let ghost m2 = v2.model();
    fields.push((k2, v2));
    let k3 = String::from_str("icons");
    let v3 = str_map_to_value(&t.icons);
    let ghost m3 = v3.model();
    fields.push((k3, v3));
    proof {
        lemma_model_fields_len(fields@);
        assert(model_fields(fields@) =~= seq![
            ("assets_dir"@, m1),
            ("themes"@, m2),
            ("icons"@, m3),
        ]);
    }
    ConfigValue::Obj(fields)
}

/// Writes a whole configuration as the value `config_value` says it
/// denotes, ready to be printed as a source text.
pub fn config_to_value(c: &Config) -> (v: ConfigValue)
    ensures
        v.model() == config_value(c@),
{
    let mut fields: Vec<(String, ConfigValue)> = Vec::new();
    let k1 = String::from_str("server");
    let v1 = server_to_value(&c.server);
    let ghost m1 = v1.model();
    fields.push((k1, v1));
    let k2 = String::from_str("typst");
    let v2 = typst_to_value(&c.typst);
    let ghost m2 = v2.model();
    fields.push((k2, v2));
    proof {
        lemma_model_fields_len(fields@);
        assert(model_fields(fields@) =~= seq![("server"@, m1), ("typst"@, m2)]);
    }
    ConfigValue::Obj(fields)
}

/// Loads the static configuration from its layered sources: the
/// sources are parsed and merged as the loader says, and the merged
/// value read against the schema — each failure reported exactly
/// where it arose.
pub fn load_config(sources: &Vec<Option<String>>) -> (r: Result<Config, Error>)
    ensures
        match spec_load(sources.deep_view()) {
            LoadResult::Failed { source, at } => r matches Err(e) && e == (Error::ConfigParse {
                source: source as usize,
                at: at as usize,
            }),
            LoadResult::Loaded(m) => match spec_config(m) {
                Some(cm) => r matches Ok(c) && c@ == cm,
                None => r matches Err(e) && e matches Error::ConfigSchema { field } && field@
                    == spec_config_error_field(m),
            },
        },
{
    match load_sources(sources) {
        Err(le) => Err(Error::ConfigParse { source: le.source, at: le.at }),
        Ok(v) => config_from_value(&v),
    }
}

} // verus!
