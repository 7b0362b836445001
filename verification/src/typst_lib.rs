//! Resolving a theme into the document compiler's input, and the
//! compiler call itself.
//!
//! Resolution is recomputed from the static configuration on every
//! request and split along the filesystem boundary: `theme_paths`
//! decides, from the configuration alone, which font and template
//! files belong to a theme and where they lie; the host reads those
//! files and hands the outcomes to `assemble_unit`, which tolerates
//! every individual miss — an unregistered font name, an unreadable
//! file — by leaving the asset out.  Only an unknown theme name is a
//! client-facing error.  The caller's document always enters the unit
//! as the one reserved entry template, whatever else resolved.
//!
//! The compiler itself is an opaque collaborator behind
//! `render_unit`.

use vstd::prelude::*;

use crate::config::theme_entries_view;
use crate::config::TypstConfig;
use crate::error::Error;
use crate::value::assoc_lookup;
use crate::value::lemma_assoc_absent;
use crate::value::lemma_assoc_found;

verus! {

/// The resolved input of one compile: font binaries and named
/// template sources, the last of which is always the entry template.
#[derive(Debug, PartialEq, Eq)]
pub struct CompileUnit {
    pub fonts: Vec<Vec<u8>>,
    pub templates: Vec<(String, String)>,
}

/// Where a theme's assets lie: each wanted font that the registry
/// knows, and each declared template, with the full path to try.
#[derive(Debug, PartialEq, Eq)]
pub struct ResolvePlan {
    pub fonts: Vec<(String, String)>,
    pub templates: Vec<(String, String)>,
}

/// A path under a directory, joined with a slash.
pub open spec fn spec_join(dir: Seq<char>, rel: Seq<char>) -> Seq<char> {
    dir + seq!['/'] + rel
}

/// Joins a relative path onto a directory.
pub fn join_path(dir: &String, rel: &String) -> (r: String)
    ensures
        r@ == spec_join(dir@, rel@),
{
    proof {
        reveal_strlit("/");
        assert("/"@ =~= seq!['/']);
    }
    let mut out = dir.clone();
    out.append("/");
    out.append(rel.as_str());
    out
}

/// The fonts a theme gets: each declared name the registry knows, in
/// declaration order, with its path under the asset root; a name the
/// registry does not know is skipped.
pub open spec fn font_plan(
    declared: Seq<Seq<char>>,
    registry: Seq<(Seq<char>, Seq<char>)>,
    root: Seq<char>,
) -> Seq<(Seq<char>, Seq<char>)>
    decreases declared.len(),
{
    if declared.len() == 0 {
        Seq::empty()
    } else {
        let rest = font_plan(declared.drop_last(), registry, root);
        match assoc_lookup(registry, declared.last()) {
            Some(rel) => rest.push((declared.last(), spec_join(root, rel))),
            None => rest,
        }
    }
}

/// The templates a theme declares, each with its path under the
/// theme's own asset directory.
pub open spec fn template_plan(
    declared: Seq<(Seq<char>, Seq<char>)>,
    theme_dir: Seq<char>,
) -> Seq<(Seq<char>, Seq<char>)> {
    Seq::new(declared.len(), |i: int| (declared[i].0, spec_join(theme_dir, declared[i].1)))
}

/// Looks a font name up in the icon/font registry.
fn find_in_registry<'a>(registry: &'a Vec<(String, String)>, name: &String) -> (r: Option<
    &'a String,
>)
    ensures
        match r {
            Some(p) => assoc_lookup(registry.deep_view(), name@) == Some(p@),
            None => assoc_lookup(registry.deep_view(), name@) is None,
        },
{
    let n = registry.len();
    let mut i: usize = 0;
    while i < n
        invariant
            n == registry.len(),
            0 <= i <= n,
            forall|j: int| 0 <= j < i ==> registry@[j].0@ != name@,
        decreases n - i,
    {
        if registry[i].0 == *name {
            proof {
                lemma_assoc_found(registry.deep_view(), name@, i as int);
            }
            return Some(&registry[i].1);
        }
        i = i + 1;
    }
    proof {
        lemma_assoc_absent(registry.deep_view(), name@);
    }
    None
}

/// Looks a theme up by name.
fn find_theme<'a>(themes: &'a Vec<(String, crate::config::Theme)>, name: &String) -> (r: Option<
    &'a crate::config::Theme,
>)
    ensures
        match r {
            Some(t) => assoc_lookup(theme_entries_view(themes@), name@) == Some(t@),
            None => assoc_lookup(theme_entries_view(themes@), name@) is None,
        },
{
    let n = themes.len();
    let mut i: usize = 0;
    while i < n
        invariant
            n == themes.len(),
            0 <= i <= n,
            forall|j: int| 0 <= j < i ==> themes@[j].0@ != name@,
        decreases n - i,
    {
        if themes[i].0 == *name {
            proof {
                lemma_assoc_found(theme_entries_view(themes@), name@, i as int);
            }
            return Some(&themes[i].1);
        }
        i = i + 1;
    }
    proof {
        lemma_assoc_absent(theme_entries_view(themes@), name@);
    }
    None
}

/// Resolves a theme name against the static configuration: exactly
/// the font and template paths `font_plan` and `template_plan` give
/// for that theme, or — for an unknown name, and only then — a
/// client-facing error naming it.
pub fn theme_paths(config: &TypstConfig, theme_name: &String) -> (r: Result<ResolvePlan, Error>)
    ensures
        match assoc_lookup(theme_entries_view(config.themes@), theme_name@) {
            None => r matches Err(e) && e matches Error::InvalidInput { reason } && reason@
                == "Theme "@ + theme_name@ + " not found"@,
            Some(tm) => r matches Ok(plan) && plan.fonts.deep_view() == font_plan(
                tm.icons,
                config.icons.deep_view(),
                config.assets_dir@,
            ) && plan.templates.deep_view() == template_plan(
                tm.themplates,
                spec_join(config.assets_dir@, theme_name@),
            ),
        },
{
    let theme = match find_theme(&config.themes, theme_name) {
        Some(t) => t,
        None => {
            let reason = String::from_str("Theme ").concat(theme_name.as_str()).concat(
                " not found",
            );
            return Err(Error::InvalidInput { reason });
        },
    };
    let ghost tm = theme@;
    let mut fonts: Vec<(String, String)> = Vec::new();
    let n = theme.icons.len();
    let mut i: usize = 0;
    while i < n
        invariant
            n == theme.icons.len(),
            0 <= i <= n,
            tm == theme@,
            fonts.deep_view() =~= font_plan(
                tm.icons.subrange(0, i as int),
                config.icons.deep_view(),
                config.assets_dir@,
            ),
        decreases n - i,
    {
        let ghost before = tm.icons.subrange(0, i as int);
        let ghost after = tm.icons.subrange(0, i + 1);
        let ghost prev = fonts.deep_view();
        proof {
            assert(after.drop_last() =~= before);
            assert(after.last() == tm.icons[i as int]);
        }
        match find_in_registry(&config.icons, &theme.icons[i]) {
            Some(rel) => {
                let name = theme.icons[i].clone();
                let full = join_path(&config.assets_dir, rel);
                fonts.push((name, full));
                proof {
                    assert(fonts.deep_view() =~= prev.push(
                        (tm.icons[i as int], spec_join(config.assets_dir@, rel@)),
                    ));
                }
            },
            None => {},
        }
        i = i + 1;
    }
    proof {
        assert(tm.icons.subrange(0, tm.icons.len() as int) =~= tm.icons);
    }
    let theme_dir = join_path(&config.assets_dir, theme_name);
    let mut templates: Vec<(String, String)> = Vec::new();
    let m = theme.themplates.len();
    let mut k: usize = 0;
    while k < m
        invariant
            m == theme.themplates.len(),
            0 <= k <= m,
            tm == theme@,
            theme_dir@ == spec_join(config.assets_dir@, theme_name@),
            templates.deep_view() =~= template_plan(tm.themplates, theme_dir@).subrange(
                0,
                k as int,
            ),
        decreases m - k,
    {
        let ghost prev = templates.deep_view();
        let name = theme.themplates[k].0.clone();
        let full = join_path(&theme_dir, &theme.themplates[k].1);
        templates.push((name, full));
        proof {
            assert(templates.deep_view() =~= prev.push(
                (tm.themplates[k as int].0, spec_join(theme_dir@, tm.themplates[k as int].1)),
            ));
            assert(template_plan(tm.themplates, theme_dir@).subrange(0, k + 1) =~= template_plan(
                tm.themplates,
                theme_dir@,
            ).subrange(0, k as int).push(template_plan(tm.themplates, theme_dir@)[k as int]));
        }
        k = k + 1;
    }
    proof {
        assert(template_plan(tm.themplates, theme_dir@).subrange(
            0,
            template_plan(tm.themplates, theme_dir@).len() as int,
        ) =~= template_plan(tm.themplates, theme_dir@));
    }
    Ok(ResolvePlan { fonts, templates })
}

/// The font binaries that actually resolved, in order.
pub open spec fn fonts_kept(reads: Seq<(Seq<char>, Option<Seq<u8>>)>) -> Seq<Seq<u8>>
    decreases reads.len(),
{
    if reads.len() == 0 {
        Seq::empty()
    } else {
        let rest = fonts_kept(reads.drop_last());
        match reads.last().1 {
            Some(bytes) => rest.push(bytes),
            None => rest,
        }
    }
}

/// The template sources that actually resolved, in order.
pub open spec fn templates_kept(
    reads: Seq<(Seq<char>, Option<Seq<char>>)>,
) -> Seq<(Seq<char>, Seq<char>)>
    decreases reads.len(),
{
    if reads.len() == 0 {
        Seq::empty()
    } else {
        let rest = templates_kept(reads.drop_last());
        match reads.last().1 {
            Some(text) => rest.push((reads.last().0, text)),
            None => rest,
        }
    }
}

/// Builds the compile unit out of what the host could read: every
/// font and template whose read succeeded is kept in order, every
/// miss is dropped without failing, and the caller's document is
/// appended as the reserved entry template — always present, and the
/// only way the entry point is supplied.
pub fn assemble_unit(
    font_reads: &Vec<(String, Option<Vec<u8>>)>,
    template_reads: &Vec<(String, Option<String>)>,
    content: String,
) -> (u: CompileUnit)
    ensures
        u.fonts.deep_view() == fonts_kept(font_reads.deep_view()),
        u.templates.deep_view() == templates_kept(template_reads.deep_view()).push(
            ("main.typ"@, content@),
        ),
{
    let mut fonts: Vec<Vec<u8>> = Vec::new();
    let n = font_reads.len();
    let mut i: usize = 0;
    while i < n
        invariant
            n == font_reads.len(),
            0 <= i <= n,
            fonts.deep_view() =~= fonts_kept(font_reads.deep_view().subrange(0, i as int)),
        decreases n - i,
    {
        let ghost fr = font_reads.deep_view();
        let ghost before = fr.subrange(0, i as int);
        let ghost after = fr.subrange(0, i + 1);
        let ghost prev = fonts.deep_view();
        proof {
            assert(after.drop_last() =~= before);
            assert(after.last() == fr[i as int]);
            assert(fr[i as int] == font_reads@[i as int].deep_view());
        }
        match &font_reads[i].1 {
            Some(bytes) => {
                fonts.push(bytes.clone());
                proof {
                    assert(fonts.deep_view() =~= prev.push(font_reads@[i as int].1.deep_view()->0));
                }
            },
            None => {},
        }
        i = i + 1;
    }
    proof {
        assert(font_reads.deep_view().subrange(0, font_reads.deep_view().len() as int)
            =~= font_reads.deep_view());
    }
    let mut templates: Vec<(String, String)> = Vec::new();
    let m = template_reads.len();
    let mut k: usize = 0;
    while k < m
        invariant
            m == template_reads.len(),
            0 <= k <= m,
            templates.deep_view() =~= templates_kept(
                template_reads.deep_view().subrange(0, k as int),
            ),
        decreases m - k,
    {
        let ghost tr = template_reads.deep_view();
        let ghost before = tr.subrange(0, k as int);
        let ghost after = tr.subrange(0, k + 1);
        let ghost prev = templates.deep_view();
        proof {
            assert(after.drop_last() =~= before);
            assert(after.last() == tr[k as int]);
            assert(tr[k as int] == template_reads@[k as int].deep_view());
        }
        match &template_reads[k].1 {
            Some(text) => {
                let name = template_reads[k].0.clone();
                templates.push((name, text.clone()));
                proof {
                    assert(templates.deep_view() =~= prev.push(
                        (
                            template_reads@[k as int].0@,
                            template_reads@[k as int].1.deep_view()->0,
                        ),
                    ));
                }
            },
            None => {},
        }
        k = k + 1;
    }
    proof {
        assert(template_reads.deep_view().subrange(0, template_reads.deep_view().len() as int)
            =~= template_reads.deep_view());
    }
    let ghost prev = templates.deep_view();
    templates.push((String::from_str("main.typ"), content));
    proof {
        assert(templates.deep_view() =~= prev.push(("main.typ"@, content@)));
    }
    CompileUnit { fonts, templates }
}

/// Whether the compiler's virtual file system can carry a template
/// under this name: `typst::syntax::VirtualPath::new` accepts it.
pub uninterp spec fn template_name_ok(name: Seq<char>) -> bool;

/// Asks the compiler's virtual file system whether it can carry a
/// template under this name.
///
/// Relies on `typst::syntax::VirtualPath::new`, a function of the
/// name alone: it rejects — rather than panics on — a name that
/// holds a backslash or whose normalization climbs out of the
/// project root.  The engine's resolver converts each name with the
/// same call, panicking where it rejects, so this is the exact
/// fallible form of that conversion.
#[verifier::external_body]
fn check_template_name(name: &String) -> (r: Result<(), String>)
    ensures
        r is Ok <==> template_name_ok(name@),
{
    match typst::syntax::VirtualPath::new(name.as_str()) {
        Ok(_) => Ok(()),
        Err(e) => Err(format!("invalid template name {:?}: {}", name, e)),
    }
}

/// Hands a compile unit to the document compiler.
///
/// Relies on `typst_as_lib::TypstEngine`: built with exactly the
/// unit's fonts and template sources, it compiles the template named
/// `main.typ`; and on `typst_pdf::pdf`, which renders the compiled
/// document.  The resolver converts every template name eagerly and
/// panics on one its virtual file system cannot carry, so such names
/// are excluded here; `render_unit` screens them first.  The compiler
/// is otherwise an opaque collaborator: nothing is assumed of the
/// bytes or of which inputs compile, only that a failure comes back
/// as an error value.
#[verifier::external_body]
fn compile_document(fonts: &Vec<Vec<u8>>, templates: &Vec<(String, String)>) -> (r: Result<
    Vec<u8>,
    String,
>)
    requires
        forall|i: int| 0 <= i < templates@.len() ==> template_name_ok(#[trigger] templates@[i].0@),
{
    let sources: Vec<(&str, &str)> =
        templates.iter().map(|p| (p.0.as_str(), p.1.as_str())).collect();
    let engine = typst_as_lib::TypstEngine::builder().fonts(fonts.clone())
        .with_static_source_file_resolver(sources).build();
    match engine.compile("main.typ").output {
        Ok(doc) => match typst_pdf::pdf(&doc, &typst_pdf::PdfOptions::default()) {
            Ok(pdf) => Ok(pdf),
            Err(e) => Err(format!("Could not generate pdf. {:?}", e)),
        },
        Err(e) => Err(format!("typst::compile() returned an error! {:?}", e)),
    }
}

/// Renders a compile unit to a report, wrapping a compiler failure as
/// this crate's compiler error.  A template name the compiler's
/// virtual file system cannot carry is answered with the same error,
/// never handed on.
pub fn render_unit(unit: &CompileUnit) -> (r: Result<Vec<u8>, Error>)
    ensures
        r matches Err(e) ==> e matches Error::TypstPdf { .. },
{
    let n = unit.templates.len();
    let mut i: usize = 0;
    while i < n
        invariant
            n == unit.templates.len(),
            0 <= i <= n,
            forall|j: int| 0 <= j < i ==> template_name_ok(#[trigger] unit.templates@[j].0@),
        decreases n - i,
    {
        match check_template_name(&unit.templates[i].0) {
            Ok(accepted) => {},
            Err(message) => {
                return Err(Error::TypstPdf { message });
            },
        }
        i = i + 1;
    }
    match compile_document(&unit.fonts, &unit.templates) {
        Ok(bytes) => Ok(bytes),
        Err(message) => Err(Error::TypstPdf { message }),
    }
}

} // verus!
