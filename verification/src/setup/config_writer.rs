//! Rendering of a kaizen `config.toml` from the wizard's answers.
use vstd::prelude::*;

use crate::config::{ExtraConfig, CURRENT_SCHEMA_VERSION};
use crate::text::{digits, join, join_strings, string_of, string_views, u64_digits};

verus! {

/// How `toml` writes a string value: `toml::Value::String(s)` rendered with
/// its `Display` impl (a quoted TOML string with the escapes that TOML needs).
pub uninterp spec fn toml_quoted(s: Seq<char>) -> Seq<char>;

/// Calls `toml::Value::String(s).to_string()`; the result is named by
/// `toml_quoted` of the input, nothing more is claimed about it.
#[verifier::external_body]
fn toml_string(s: &str) -> (r: String)
    ensures
        r@ == toml_quoted(s@),
{
    toml::Value::String(s.to_owned()).to_string()
}

/// The TOML renderings of a list of strings.
pub open spec fn quoted_all(v: Seq<String>) -> Seq<Seq<char>> {
    string_views(v).map_values(|s: Seq<char>| toml_quoted(s))
}

pub open spec fn bool_text(b: bool) -> Seq<char> {
    if b {
        "true"@
    } else {
        "false"@
    }
}

/// One `[features.<name>]` table per feature, in order.
pub open spec fn feature_tables(names: Seq<Seq<char>>, selected: Seq<Seq<char>>) -> Seq<char>
    decreases names.len(),
{
    if names.len() == 0 {
        Seq::empty()
    } else {
        feature_tables(names.drop_last(), selected) + "[features."@ + names.last() + "]\nenabled = "@
            + bool_text(selected.contains(names.last())) + "\n\n"@
    }
}

/// A TOML array of already rendered items.
pub open spec fn list_text(items: Seq<Seq<char>>) -> Seq<char> {
    "["@ + join(items, ", "@) + "]"@
}

/// `key = [...]` line, or nothing for an empty list.
pub open spec fn list_line(key: Seq<char>, items: Seq<Seq<char>>) -> Seq<char> {
    if items.len() == 0 {
        Seq::empty()
    } else {
        key + " = "@ + list_text(items) + "\n"@
    }
}

/// The `[extra]` table, present only when some list is non-empty.
pub open spec fn extra_text(
    nix: Seq<Seq<char>>,
    casks: Seq<Seq<char>>,
    formulas: Seq<Seq<char>>,
    taps: Seq<Seq<char>>,
) -> Seq<char> {
    if nix.len() == 0 && casks.len() == 0 && formulas.len() == 0 && taps.len() == 0 {
        Seq::empty()
    } else {
        "\n[extra]\n"@ + list_line("nix_packages"@, nix) + list_line("brew_casks"@, casks) + list_line(
            "brew_formulas"@,
            formulas,
        ) + list_line("brew_taps"@, taps)
    }
}

/// The whole `config.toml`, given the rendered layout, source and extra
/// package names.
pub open spec fn config_text(
    names: Seq<Seq<char>>,
    selected: Seq<Seq<char>>,
    layout: Seq<char>,
    source: Seq<char>,
    nix: Seq<Seq<char>>,
    casks: Seq<Seq<char>>,
    formulas: Seq<Seq<char>>,
    taps: Seq<Seq<char>>,
) -> Seq<char> {
    "schema_version = "@ + digits(CURRENT_SCHEMA_VERSION as nat) + "\n\n"@ + feature_tables(names, selected)
        + "[settings]\nlayout = "@ + layout + "\n\n"@ + "[dotfiles]\nbackend = \"chezmoi\"\n"@ + "source = "@
        + source + "\n"@ + extra_text(nix, casks, formulas, taps)
}

/// Names of the listed features.
pub open spec fn feature_names(all: Seq<(String, Option<String>)>) -> Seq<Seq<char>> {
    all.map_values(|f: (String, Option<String>)| f.0@)
}

fn contains_name(list: &[String], name: &String) -> (b: bool)
    ensures
        b == string_views(list@).contains(name@),
{
    let mut i: usize = 0;
    while i < list.len()
        invariant
            0 <= i <= list@.len(),
            forall|k: int| 0 <= k < i ==> #[trigger] list@[k]@ != name@,
        decreases list@.len() - i,
    {
        if list[i].eq(name) {
            assert(string_views(list@)[i as int] == name@);
            return true;
        }
        i = i + 1;
    }
    proof {
        if string_views(list@).contains(name@) {
            let k = choose|k: int| 0 <= k < string_views(list@).len() && string_views(list@)[k] == name@;
            assert(list@[k]@ == name@);
        }
    }
    false
}

/// TOML renderings of `items`.
fn quote_all(items: &Vec<String>) -> (r: Vec<String>)
    ensures
        string_views(r@) == quoted_all(items@),
{
    let mut r: Vec<String> = Vec::new();
    let mut i: usize = 0;
    while i < items.len()
        invariant
            0 <= i <= items@.len(),
            string_views(r@) == quoted_all(items@.take(i as int)),
        decreases items@.len() - i,
    {
        let q = toml_string(items[i].as_str());
        let ghost before = string_views(r@);
        r.push(q);
        proof {
            assert(string_views(r@) =~= before.push(q@));
            assert(quoted_all(items@.take(i + 1)) =~= quoted_all(items@.take(i as int)).push(
                toml_quoted(items@[i as int]@),
            ));
        }
        i = i + 1;
    }
    assert(items@.take(items@.len() as int) =~= items@);
    r
}

/// Appends `key = [items]` (items already rendered) when `items` is not empty.
fn push_list_line(out: &mut String, key: &str, items: &Vec<String>)
    ensures
        final(out)@ == old(out)@ + list_line(key@, string_views(items@)),
{
    if items.len() > 0 {
        let joined = join_strings(items, ", ");
        out.append(key);
        out.append(" = ");
        out.append("[");
        out.append(joined.as_str());
        out.append("]");
        out.append("\n");
        assert(out@ =~= old(out)@ + list_line(key@, string_views(items@)));
    } else {
        assert(list_line(key@, string_views(items@)) =~= Seq::<char>::empty());
        assert(out@ =~= old(out)@ + list_line(key@, string_views(items@)));
    }
}

/// `config.toml` from selected features, layout and dotfiles source, with
/// the layout, the source and each extra package name already rendered as
/// TOML strings (`extra_rendered` holds the renderings).
pub fn render_config_rendered(
    all_features: &[(String, Option<String>)],
    selected: &[String],
    layout_rendered: &str,
    source_rendered: &str,
    extra_rendered: &ExtraConfig,
) -> (out: String)
    ensures
        out@ == config_text(
            feature_names(all_features@),
            string_views(selected@),
            layout_rendered@,
            source_rendered@,
            string_views(extra_rendered.nix_packages@),
            string_views(extra_rendered.brew_casks@),
            string_views(extra_rendered.brew_formulas@),
            string_views(extra_rendered.brew_taps@),
        ),
{
    let ghost names = feature_names(all_features@);
    let ghost sel = string_views(selected@);
    let mut out = String::new();
    out.append("schema_version = ");
    let version = string_of(&u64_digits(CURRENT_SCHEMA_VERSION as u64));
    out.append(version.as_str());
    out.append("\n\n");
    let ghost head = out@;
    let mut i: usize = 0;
    assert(names.take(0) =~= Seq::<Seq<char>>::empty());
    while i < all_features.len()
        invariant
            0 <= i <= all_features@.len(),
            names == feature_names(all_features@),
            sel == string_views(selected@),
            out@ == head + feature_tables(names.take(i as int), sel),
        decreases all_features@.len() - i,
    {
        let name = &all_features[i].0;
        let enabled = contains_name(selected, name);
        out.append("[features.");
        out.append(name.as_str());
        out.append("]\nenabled = ");
        if enabled {
            out.append("true");
        } else {
            out.append("false");
        }
        out.append("\n\n");
        proof {
            let t = names.take(i + 1);
            assert(t.drop_last() =~= names.take(i as int));
            assert(t.last() == name@);
            assert(out@ =~= head + feature_tables(t, sel));
        }
        i = i + 1;
    }
    assert(names.take(all_features@.len() as int) =~= names);
    out.append("[settings]\nlayout = ");
    out.append(layout_rendered);
    out.append("\n\n");
    out.append("[dotfiles]\nbackend = \"chezmoi\"\n");
    out.append("source = ");
    out.append(source_rendered);
    out.append("\n");
    let ghost body = out@;
    if !extra_rendered.is_empty() {
        out.append("\n[extra]\n");
        push_list_line(&mut out, "nix_packages", &extra_rendered.nix_packages);
        push_list_line(&mut out, "brew_casks", &extra_rendered.brew_casks);
        push_list_line(&mut out, "brew_formulas", &extra_rendered.brew_formulas);
        push_list_line(&mut out, "brew_taps", &extra_rendered.brew_taps);
    }
    proof {
        let e = extra_text(
            string_views(extra_rendered.nix_packages@),
            string_views(extra_rendered.brew_casks@),
            string_views(extra_rendered.brew_formulas@),
            string_views(extra_rendered.brew_taps@),
        );
        if extra_rendered.empty() {
            assert(e =~= Seq::<char>::empty());
        }
        assert(out@ =~= body + e);
    }
    out
}

/// Render a kaizen `config.toml` from selected features, layout, and
/// dotfiles source. `extra` is kept as given: the wizard never changes
/// user-managed packages.
pub fn render_config(
    all_features: &[(String, Option<String>)],
    selected: &[String],
    layout: &str,
    dotfiles_source: &str,
    extra: &ExtraConfig,
) -> (out: String)
    ensures
        out@ == config_text(
            feature_names(all_features@),
            string_views(selected@),
            toml_quoted(layout@),
            toml_quoted(dotfiles_source@),
            quoted_all(extra.nix_packages@),
            quoted_all(extra.brew_casks@),
            quoted_all(extra.brew_formulas@),
            quoted_all(extra.brew_taps@),
        ),
{
    let layout_rendered = toml_string(layout);
    let source_rendered = toml_string(dotfiles_source);
    let rendered = ExtraConfig {
        nix_packages: quote_all(&extra.nix_packages),
        brew_casks: quote_all(&extra.brew_casks),
        brew_formulas: quote_all(&extra.brew_formulas),
        brew_taps: quote_all(&extra.brew_taps),
    };
    render_config_rendered(all_features, selected, layout_rendered.as_str(), source_rendered.as_str(), &rendered)
}

} // verus!
