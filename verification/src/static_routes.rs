//! The app shell, vault resources, and how long static assets may be cached.

use vstd::prelude::*;

use crate::fs_routes::{path_in_vault, resolve_in_vault, ApiError, ApiErrorView};
use crate::json::{json_text, jstrings, strings_json, to_text};
use crate::paths::{join, joined};
use crate::registry::VaultRegistry;
use crate::text::{append, char_texts, chars_of, has_char, has_prefix, join2, law_prefixes, law_replacing, lemma_split_concat, lemma_split_whole, lower, lower_chars, opt_str, opt_text, replace, replace_all, split, split_chars, stands_at, starts_with, str_eq, string_of, texts, Text};

verus! {

/// The cache policy of an asset whose URL carries a version: a year.
pub const IMMUTABLE: &'static str = "public, max-age=31536000, immutable";

/// The cache policy of an asset whose URL carries none: five minutes.
pub const SHORT: &'static str = "public, max-age=300";

/// What a script tag with a source looks like. The first group is the source.
pub const SCRIPT_PATTERN: &'static str = "<script[^>]+src=\"([^\"]+)\"[^>]*>";

// ---- configuration ----

/// Directories and versions of the app shell.
#[derive(Debug, Clone)]
pub struct StaticConfig {
    /// Holds the template `index.html` and the files below `/assets`.
    pub assets_dir: String,
    pub ui_dist: String,
    pub shim_dist: String,
    pub obsidian_assets: String,
    pub obsidian_version: Option<String>,
    pub ignis_version: String,
}

/// What the environment says of the app shell, each where it is set.
pub struct StaticVars {
    /// `IGNITE_ASSETS_DIR`
    pub assets_dir: Option<String>,
    /// `IGNITE_UI_DIST`
    pub ui_dist: Option<String>,
    /// `IGNITE_SHIM_DIST`
    pub shim_dist: Option<String>,
    /// `OBSIDIAN_ASSETS_PATH`
    pub obsidian_assets: Option<String>,
    /// `OBSIDIAN_VERSION`
    pub obsidian_version: Option<String>,
}

/// A text, or what stands in for it.
pub open spec fn or_text(o: Option<String>, d: Text) -> Text {
    match o {
        Some(s) => s@,
        None => d,
    }
}

/// The version that is known: neither empty nor `0.0.0`.
pub open spec fn known_version(o: Option<Text>) -> Option<Text> {
    match o {
        Some(v) => if v.len() == 0 || v == "0.0.0"@ {
            None
        } else {
            Some(v)
        },
        None => None,
    }
}

fn text_or(o: &Option<String>, d: &str) -> (r: String)
    ensures
        r@ == or_text(*o, d@),
{
    match o {
        Some(s) => s.clone(),
        None => d.to_owned(),
    }
}

impl StaticConfig {
    /// The configuration that the environment asks for, with the version of the package.
    pub fn from_env(vars: &StaticVars, package: &str) -> (r: Self)
        ensures
            r.assets_dir@ == or_text(vars.assets_dir, "./assets"@),
            r.ui_dist@ == or_text(vars.ui_dist, "./packages/ui/dist"@),
            r.shim_dist@ == or_text(vars.shim_dist, "./packages/shim/dist"@),
            r.obsidian_assets@ == or_text(vars.obsidian_assets, "./obsidian"@),
            opt_text(r.obsidian_version) == known_version(opt_text(vars.obsidian_version)),
            r.ignis_version@ == package@,
    {
        let obsidian_version = match &vars.obsidian_version {
            Some(v) => if v.as_str().is_empty() || str_eq(v.as_str(), "0.0.0") {
                None
            } else {
                Some(v.clone())
            },
            None => None,
        };
        StaticConfig {
            assets_dir: text_or(&vars.assets_dir, "./assets"),
            ui_dist: text_or(&vars.ui_dist, "./packages/ui/dist"),
            shim_dist: text_or(&vars.shim_dist, "./packages/shim/dist"),
            obsidian_assets: text_or(&vars.obsidian_assets, "./obsidian"),
            obsidian_version,
            ignis_version: package.to_owned(),
        }
    }
}

// ---- the shell ----

/// A source with its version, where that is known: `?v=` is put behind it, or `&v=` where it
/// has a query.
pub open spec fn stamped(src: Text, version: Option<Text>) -> Text {
    match version {
        Some(v) => src + (if src.contains('?') {
            "&v="@
        } else {
            "?v="@
        }) + v,
        None => src,
    }
}

/// A source with its version, where that is known.
pub fn versioned_src(src: &str, version: Option<&str>) -> (r: String)
    ensures
        r@ == stamped(src@, opt_str(version)),
{
    match version {
        Some(v) => {
            let mut out = src.to_owned();
            if has_char(&chars_of(src), '?') {
                append(&mut out, "&v=");
            } else {
                append(&mut out, "?v=");
            }
            append(&mut out, v);
            out
        },
        None => src.to_owned(),
    }
}

/// What the first group of a regular expression holds, match by match, in the `regex` crate:
/// `None` where the expression is malformed or a match has no first group.
pub uninterp spec fn regex_groups(pattern: Seq<char>, text: Seq<char>) -> Option<Seq<Seq<char>>>;

/// What an optional list of strings holds.
pub open spec fn opt_texts(o: Option<Vec<String>>) -> Option<Seq<Text>> {
    match o {
        Some(v) => Some(texts(v@)),
        None => None,
    }
}

/// `regex::Regex::new` and, on its result, `captures_iter`: the first group of every match.
#[verifier::external_body]
fn first_groups(pattern: &str, text: &str) -> (r: Option<Vec<String>>)
    ensures
        opt_texts(r) == regex_groups(pattern@, text@),
{
    let re = regex::Regex::new(pattern).ok()?;
    re.captures_iter(text).map(|c| c.get(1).map(|m| m.as_str().to_string())).collect()
}

/// The sources of the script tags of a page.
pub open spec fn script_sources(html: Text) -> Seq<Text> {
    match regex_groups(SCRIPT_PATTERN@, html) {
        Some(v) => v,
        None => Seq::empty(),
    }
}

/// Finds the sources of the script tags of a page.
pub fn find_scripts(html: &str) -> (r: Vec<String>)
    ensures
        texts(r@) == script_sources(html@),
{
    match first_groups(SCRIPT_PATTERN, html) {
        Some(v) => v,
        None => {
            let v: Vec<String> = Vec::new();
            assert(texts(v@) =~= Seq::<Text>::empty());
            v
        },
    }
}

/// The shell: the template with its four placeholders filled in, one after the other. The two
/// scripts of the server carry its own version, the style sheet and the found scripts that of
/// the bundle.
pub open spec fn shell_html(
    template: Text,
    scripts: Seq<Text>,
    obsidian_version: Option<Text>,
    ignis_version: Text,
) -> Text {
    let t = replace(template, "__IGNIS_UI_SRC__"@, "ignis-ui.js?v="@ + ignis_version);
    let t = replace(t, "__SHIM_LOADER_SRC__"@, "shim-loader.js?v="@ + ignis_version);
    let t = replace(t, "__APP_CSS_SRC__"@, stamped("app.css"@, obsidian_version));
    replace(
        t,
        "__OBSIDIAN_SCRIPTS__"@,
        json_text(strings_json(scripts.map_values(|s: Text| stamped(s, obsidian_version)))),
    )
}

/// Fills in the template, given the sources of the bundle's scripts.
pub fn fill_template(
    template: &str,
    scripts: &Vec<String>,
    obsidian_version: Option<&str>,
    ignis_version: &str,
) -> (r: String)
    ensures
        r@ == shell_html(template@, texts(scripts@), opt_str(obsidian_version), ignis_version@),
{
    let ghost f = |s: Text| stamped(s, opt_str(obsidian_version));
    let mut list: Vec<String> = Vec::new();
    for i in 0..scripts.len()
        invariant
            list@.len() == i,
            forall|j: int|
                0 <= j < i ==> (#[trigger] list@[j])@ == stamped(
                    scripts@[j]@,
                    opt_str(obsidian_version),
                ),
    {
        list.push(versioned_src(scripts[i].as_str(), obsidian_version));
    }
    assert(texts(list@) =~= texts(scripts@).map_values(f));
    let scripts_json = to_text(&jstrings(&list));
    let ui = join2("ignis-ui.js?v=", ignis_version);
    let shim = join2("shim-loader.js?v=", ignis_version);
    let css = versioned_src("app.css", obsidian_version);
    let t = replace_all(template, "__IGNIS_UI_SRC__", ui.as_str());
    let t = replace_all(t.as_str(), "__SHIM_LOADER_SRC__", shim.as_str());
    let t = replace_all(t.as_str(), "__APP_CSS_SRC__", css.as_str());
    replace_all(t.as_str(), "__OBSIDIAN_SCRIPTS__", scripts_json.as_str())
}

/// Builds the shell from the template and the bundle's own page.
pub fn build_index_html(
    template: &str,
    obsidian_index_html: &str,
    obsidian_version: Option<&str>,
    ignis_version: &str,
) -> (r: String)
    ensures
        r@ == shell_html(
            template@,
            script_sources(obsidian_index_html@),
            opt_str(obsidian_version),
            ignis_version@,
        ),
{
    let scripts = find_scripts(obsidian_index_html);
    fill_template(template, &scripts, obsidian_version, ignis_version)
}

/// The paths of the template and of the bundle's own page.
pub fn shell_paths(cfg: &StaticConfig) -> (r: (String, String))
    ensures
        r.0@ == joined(cfg.assets_dir@, "index.html"@),
        r.1@ == joined(cfg.obsidian_assets@, "index.html"@),
{
    (
        join(cfg.assets_dir.as_str(), "index.html"),
        join(cfg.obsidian_assets.as_str(), "index.html"),
    )
}

/// Builds the shell of a configuration, given its template and the bundle's own page.
pub fn build_shell(cfg: &StaticConfig, template: &str, obsidian: &str) -> (r: String)
    ensures
        r@ == shell_html(
            template@,
            script_sources(obsidian@),
            opt_text(cfg.obsidian_version),
            cfg.ignis_version@,
        ),
{
    let version = match &cfg.obsidian_version {
        Some(v) => Some(v.as_str()),
        None => None,
    };
    build_index_html(template, obsidian, version, cfg.ignis_version.as_str())
}

// ---- caching ----

/// The extension of a path, in lower case: what stands behind the last dot of its last name.
pub open spec fn extension(path: Text) -> Option<Text> {
    let last = split(path, '/').last();
    if last.contains('.') {
        Some(lower(split(last, '.').last()))
    } else {
        None
    }
}

/// The extensions of assets.
pub open spec fn is_asset(ext: Text) -> bool {
    ext == "js"@ || ext == "css"@ || ext == "woff"@ || ext == "woff2"@ || ext == "ttf"@ || ext
        == "otf"@ || ext == "wasm"@ || ext == "map"@
}

/// The cache policy of a path.
pub open spec fn policy(path: Text, has_version: bool) -> Option<Text> {
    match extension(path) {
        Some(ext) => if is_asset(ext) {
            Some(if has_version {
                IMMUTABLE@
            } else {
                SHORT@
            })
        } else {
            None
        },
        None => None,
    }
}

/// The cache policy of a path: for assets, a year where the URL carries a version and five
/// minutes where it does not.
pub fn cache_control_for(path: &str, has_version: bool) -> (r: Option<&'static str>)
    ensures
        opt_str(r) == policy(path@, has_version),
{
    let names = split_chars(&chars_of(path), '/');
    let last = &names[names.len() - 1];
    proof {
        assert(char_texts(names@).last() == names@[names@.len() - 1]@);
    }
    if !has_char(last, '.') {
        return None;
    }
    let parts = split_chars(last, '.');
    proof {
        assert(char_texts(parts@).last() == parts@[parts@.len() - 1]@);
    }
    let ext = string_of(&lower_chars(&parts[parts.len() - 1]));
    let e = ext.as_str();
    let asset = str_eq(e, "js") || str_eq(e, "css") || str_eq(e, "woff") || str_eq(e, "woff2")
        || str_eq(e, "ttf") || str_eq(e, "otf") || str_eq(e, "wasm") || str_eq(e, "map");
    if !asset {
        return None;
    }
    Some(
        if has_version {
            IMMUTABLE
        } else {
            SHORT
        },
    )
}

/// Whether a query carries a version: one of its pairs is `v`, with or without a value.
pub open spec fn carries_version(query: Option<Text>) -> bool {
    match query {
        Some(q) => has_version_pair(split(q, '&')),
        None => false,
    }
}

/// Whether one of some pairs is `v`.
pub open spec fn has_version_pair(pairs: Seq<Text>) -> bool {
    exists|i: int| 0 <= i < pairs.len() && is_version_pair(#[trigger] pairs[i])
}

/// The pair `v` of a query.
pub open spec fn is_version_pair(t: Text) -> bool {
    t == "v"@ || has_prefix(t, "v="@)
}

/// Whether a query carries a version.
pub fn has_version(query: Option<&str>) -> (r: bool)
    ensures
        r == carries_version(opt_str(query)),
{
    let q = match query {
        Some(q) => q,
        None => {
            return false;
        },
    };
    let pairs = split_chars(&chars_of(q), '&');
    let ghost all = split(q@, '&');
    assert(char_texts(pairs@).len() == pairs@.len());
    for i in 0..pairs.len()
        invariant
            all == split(q@, '&'),
            char_texts(pairs@) == all,
            pairs@.len() == all.len(),
            opt_str(query) == Some(q@),
            forall|j: int| 0 <= j < i ==> !is_version_pair(#[trigger] all[j]),
    {
        assert(char_texts(pairs@)[i as int] == pairs@[i as int]@);
        let kv = string_of(&pairs[i]);
        if str_eq(kv.as_str(), "v") || starts_with(kv.as_str(), "v=") {
            assert(is_version_pair(all[i as int]));
            return true;
        }
    }
    false
}

/// The cache policy that is put on a response: only where it has none.
pub fn cache_header(has_policy: bool, path: &str, query: Option<&str>) -> (r: Option<&'static str>)
    ensures
        opt_str(r) == (if has_policy {
            None
        } else {
            policy(path@, carries_version(opt_str(query)))
        }),
{
    if has_policy {
        return None;
    }
    cache_control_for(path, has_version(query))
}

// ---- vault resources ----

/// Why a vault resource is not served.
pub enum ResourceError {
    /// There is no such vault: 404.
    NoVault,
    /// The path leaves the vault.
    Refused(ApiError),
}

/// What a resource error says.
pub enum ResourceErrorView {
    NoVault,
    Refused(ApiErrorView),
}

impl ResourceError {
    /// What the error says.
    pub open spec fn view(self) -> ResourceErrorView {
        match self {
            ResourceError::NoVault => ResourceErrorView::NoVault,
            ResourceError::Refused(e) => ResourceErrorView::Refused(e@),
        }
    }
}

/// The path of a vault resource.
pub fn vault_file(reg: &VaultRegistry, vault: &str, rest: &str) -> (r: Result<
    String,
    ResourceError,
>)
    ensures
        ({
            let known = reg.vaults().contains_key(vault@);
            let p = path_in_vault(reg.vaults()[vault@].path(), rest@);
            match r {
                Ok(s) => known && p == Ok::<Text, ApiErrorView>(s@),
                Err(e) => if known {
                    p is Err && e@ == ResourceErrorView::Refused(p->Err_0)
                } else {
                    e@ == ResourceErrorView::NoVault
                },
            }
        }),
{
    match reg.get(vault) {
        None => Err(ResourceError::NoVault),
        Some(index) => match resolve_in_vault(index.root(), rest) {
            Ok(p) => Ok(p),
            Err(e) => Err(ResourceError::Refused(e)),
        },
    }
}

/// The media type that the `mime_guess` crate has for a path.
pub uninterp spec fn guessed_mime(path: Seq<char>) -> Seq<char>;

/// `mime_guess::from_path` and `first_or_octet_stream` of its result: the media type of the
/// path's extension. A path without a dot has none, so it is `application/octet-stream`.
#[verifier::external_body]
fn guess_mime(path: &str) -> (r: String)
    ensures
        r@ == guessed_mime(path@),
        !path@.contains('.') ==> r@ == "application/octet-stream"@,
{
    mime_guess::from_path(path).first_or_octet_stream().to_string()
}

/// The content type of a vault resource.
pub fn resource_type(path: &str) -> (r: String)
    ensures
        r@ == guessed_mime(path@),
        !path@.contains('.') ==> r@ == "application/octet-stream"@,
{
    guess_mime(path)
}

// ---- laws ----

/// Without a known version every source stays as it is.
pub proof fn law_unknown_version_leaves_sources(src: Text)
    ensures
        stamped(src, None) == src,
{
}

/// A stamped source carries a version in its query, so it is cached for a year where it is an
/// asset.
pub proof fn law_stamped_sources_carry_their_version(src: Text, v: Text)
    requires
        !src.contains('?'),
    ensures
        stamped(src, Some(v)) == src + "?v="@ + v,
        carries_version(Some("v="@ + v)) || v.contains('&'),
{
    let q = "v="@ + v;
    if !v.contains('&') {
        reveal_strlit("v=");
        assert(!q.contains('&')) by {
            if q.contains('&') {
                let i = choose|i: int| 0 <= i < q.len() && q[i] == '&';
                assert(i >= 2);
                assert(v[i - 2] == '&');
            }
        }
        lemma_split_whole(q, '&');
        assert(q.take(2) =~= "v="@);
        assert(is_version_pair(split(q, '&')[0]));
    }
}

/// A source gets its version behind a question mark, or behind an ampersand where it has a query
/// already.
pub proof fn law_stamping(src: Text, v: Text)
    ensures
        src.contains('?') ==> stamped(src, Some(v)) == src + "&v="@ + v,
        !src.contains('?') ==> stamped(src, Some(v)) == src + "?v="@ + v,
        stamped(src, None) == src,
{
}

/// A query carries a version where one of its pairs is `v`: two queries with an ampersand between
/// them carry one where either does.
pub proof fn law_versions_in_queries(a: Text, b: Text)
    ensures
        carries_version(Some(a.push('&') + b)) <==> carries_version(Some(a)) || carries_version(
            Some(b),
        ),
        carries_version(Some("v"@)),
        !a.contains('&') ==> carries_version(Some("v="@ + a)),
        !a.contains('&') && a != "v"@ && !(a.len() >= 2 && a[0] == 'v' && a[1] == '=')
            ==> !carries_version(Some(a)),
        !carries_version(None),
{
    reveal_strlit("v");
    reveal_strlit("v=");
    let (x, y) = (split(a, '&'), split(b, '&'));
    lemma_split_concat(a, b, '&');
    if has_version_pair(x) {
        let i = choose|i: int| 0 <= i < x.len() && is_version_pair(#[trigger] x[i]);
        assert((x + y)[i] == x[i]);
    }
    if has_version_pair(y) {
        let i = choose|i: int| 0 <= i < y.len() && is_version_pair(#[trigger] y[i]);
        assert((x + y)[x.len() + i] == y[i]);
    }
    if has_version_pair(x + y) {
        let i = choose|i: int| 0 <= i < (x + y).len() && is_version_pair(#[trigger] (x + y)[i]);
        if i < x.len() {
            assert(is_version_pair(x[i]));
        } else {
            assert(is_version_pair(y[i - x.len()]));
        }
    }
    lemma_split_whole("v"@, '&');
    assert(is_version_pair(split("v"@, '&')[0]));
    if !a.contains('&') {
        let q = "v="@ + a;
        if q.contains('&') {
            let i = choose|i: int| 0 <= i < q.len() && q[i] == '&';
            assert(a[i - 2] == '&');
        }
        lemma_split_whole(q, '&');
        law_prefixes(q, "v="@, a);
        assert(is_version_pair(split(q, '&')[0]));
        lemma_split_whole(a, '&');
        if a != "v"@ && !(a.len() >= 2 && a[0] == 'v' && a[1] == '=') {
            if has_prefix(a, "v="@) {
                assert(a.take(2)[0] == "v="@[0] && a.take(2)[1] == "v="@[1]);
            }
            assert(!is_version_pair(a));
        }
    }
}

/// The version that is known is the one that is set, unless it is empty or `0.0.0`.
pub proof fn law_known_versions(v: Text)
    ensures
        v.len() > 0 && v != "0.0.0"@ ==> known_version(Some(v)) == Some(v),
        v.len() == 0 ==> known_version(Some(v)) is None,
        known_version(Some("0.0.0"@)) is None,
        known_version(None) is None,
{
}

/// An asset, whose extension is one of eight in whatever case, is cached for a year where its URL
/// carries a version and for five minutes where it does not. Of any other file nothing is said,
/// nor of one without an extension.
pub proof fn law_cached_assets(dir: Text, stem: Text, ext: Text, versioned: bool)
    requires
        !stem.contains('/'),
        !ext.contains('/'),
        !ext.contains('.'),
    ensures
        ({
            let e = lower(ext);
            let asset = e == "js"@ || e == "css"@ || e == "woff"@ || e == "woff2"@ || e == "ttf"@ || e
                == "otf"@ || e == "wasm"@ || e == "map"@;
            let path = dir.push('/') + (stem.push('.') + ext);
            &&& asset && versioned ==> policy(path, versioned) == Some(
                "public, max-age=31536000, immutable"@,
            ) && policy(stem.push('.') + ext, versioned) == Some("public, max-age=31536000, immutable"@)
            &&& asset && !versioned ==> policy(path, versioned) == Some("public, max-age=300"@)
                && policy(stem.push('.') + ext, versioned) == Some("public, max-age=300"@)
            &&& !asset ==> policy(path, versioned) is None && policy(stem.push('.') + ext, versioned)
                is None
            &&& policy(dir.push('/') + ext, versioned) is None && policy(ext, versioned) is None
        }),
{
    let file = stem.push('.') + ext;
    if file.contains('/') {
        let i = choose|i: int| 0 <= i < file.len() && file[i] == '/';
        if i < stem.len() {
            assert(stem[i] == '/');
        } else {
            assert(i > stem.len());
            assert(ext[i - stem.len() - 1] == '/');
        }
    }
    lemma_split_whole(file, '/');
    lemma_split_whole(ext, '/');
    lemma_split_concat(dir, file, '/');
    lemma_split_concat(dir, ext, '/');
    assert((split(dir, '/') + seq![file]).last() == file);
    assert((split(dir, '/') + seq![ext]).last() == ext);
    assert(file[stem.len() as int] == '.');
    assert(file.contains('.'));
    lemma_split_concat(stem, ext, '.');
    lemma_split_whole(ext, '.');
    assert((split(stem, '.') + seq![ext]).last() == ext);
}

/// Each placeholder of the template gives way to its own text, and what stands around it stays:
/// the scripts of the server with its version, the style sheet with that of the bundle, and the
/// list of the bundle's scripts, each with that version.
pub proof fn law_the_shell_fills_its_placeholders(
    a: Text,
    b: Text,
    scripts: Seq<Text>,
    bundle: Text,
    own: Text,
)
    requires
        !a.contains('_'),
        !b.contains('_'),
        !bundle.contains('_'),
        !own.contains('_'),
    ensures
        shell_html(a + "__IGNIS_UI_SRC__"@ + b, scripts, Some(bundle), own) == a + (
        "ignis-ui.js?v="@ + own) + b,
        shell_html(a + "__SHIM_LOADER_SRC__"@ + b, scripts, Some(bundle), own) == a + (
        "shim-loader.js?v="@ + own) + b,
        shell_html(a + "__APP_CSS_SRC__"@ + b, scripts, Some(bundle), own) == a + ("app.css?v="@
            + bundle) + b,
        shell_html(a + "__APP_CSS_SRC__"@ + b, scripts, None, own) == a + "app.css"@ + b,
        shell_html(a + b, scripts, Some(bundle), own) == a + b,
        shell_html(a + "__OBSIDIAN_SCRIPTS__"@ + b, scripts, Some(bundle), own) == a + json_text(
            strings_json(scripts.map_values(|s: Text| stamped(s, Some(bundle)))),
        ) + b,
        shell_html(a + "__OBSIDIAN_SCRIPTS__"@ + b, scripts, None, own) == a + json_text(
            strings_json(scripts),
        ) + b,
{
    reveal_strlit("__IGNIS_UI_SRC__");
    assert("__IGNIS_UI_SRC__"@.len() == 16);
    reveal_strlit("__SHIM_LOADER_SRC__");
    assert("__SHIM_LOADER_SRC__"@.len() == 19);
    reveal_strlit("__APP_CSS_SRC__");
    assert("__APP_CSS_SRC__"@.len() == 15);
    reveal_strlit("__OBSIDIAN_SCRIPTS__");
    assert("__OBSIDIAN_SCRIPTS__"@.len() == 20);
    reveal_strlit("ignis-ui.js?v=");
    reveal_strlit("shim-loader.js?v=");
    reveal_strlit("app.css");
    reveal_strlit("app.css?v=");
    reveal_strlit("?v=");
    let ui = "ignis-ui.js?v="@ + own;
    let shim = "shim-loader.js?v="@ + own;
    let css = "app.css?v="@ + bundle;
    assert(!"app.css"@.contains('?'));
    assert("app.css"@ + "?v="@ + bundle =~= css);
    assert(!"ignis-ui.js?v="@.contains('_'));
    assert(!"shim-loader.js?v="@.contains('_'));
    assert(!"app.css?v="@.contains('_'));
    assert(!"app.css"@.contains('_'));
    lemma_plain_sum("ignis-ui.js?v="@, own);
    lemma_plain_sum("shim-loader.js?v="@, own);
    lemma_plain_sum("app.css?v="@, bundle);
    lemma_plain_sum(a, ui);
    lemma_plain_sum(a + ui, b);
    lemma_plain_sum(a, shim);
    lemma_plain_sum(a + shim, b);
    lemma_plain_sum(a, css);
    lemma_plain_sum(a + css, b);
    lemma_plain_sum(a, "app.css"@);
    lemma_plain_sum(a + "app.css"@, b);
    lemma_plain_sum(a, b);
    lemma_fill_plain(a + b, scripts, Some(bundle), own);
    lemma_fill_ui(a, b, scripts, bundle, own);
    lemma_fill_shim(a, b, scripts, bundle, own);
    lemma_fill_css(a, b, scripts, Some(bundle), own);
    lemma_fill_css(a, b, scripts, None, own);
    lemma_fill_scripts(a, b, scripts, Some(bundle), own);
    lemma_fill_scripts(a, b, scripts, None, own);
    assert(scripts.map_values(|s: Text| stamped(s, None)) =~= scripts);
}

proof fn lemma_plain_sum(a: Text, b: Text)
    requires
        !a.contains('_'),
        !b.contains('_'),
    ensures
        !(a + b).contains('_'),
{
    let t = a + b;
    if t.contains('_') {
        let i = choose|i: int| 0 <= i < t.len() && t[i] == '_';
        if i < a.len() {
            assert(a[i] == '_');
        } else {
            assert(b[i - a.len()] == '_');
        }
    }
}

/// A placeholder does not stand in a text without its first character.
proof fn lemma_none_in_plain(t: Text, pat: Text, rep: Text)
    requires
        pat.len() > 0,
        pat[0] == '_',
        !t.contains('_'),
    ensures
        replace(t, pat, rep) == t,
{
    assert forall|i: int| !stands_at(t, pat, i) by {
        if stands_at(t, pat, i) {
            assert(t.subrange(i, i + pat.len())[0] == t[i]);
            assert(t.contains(t[i]));
        }
    }
    law_replacing(t, t, pat, rep);
}

/// A placeholder takes its own place between texts without underscores.
proof fn lemma_own_place(a: Text, pat: Text, b: Text, rep: Text)
    requires
        pat.len() > 0,
        pat[0] == '_',
        !a.contains('_'),
        !b.contains('_'),
    ensures
        replace(a + pat + b, pat, rep) == a + rep + b,
{
    let t = a + pat + b;
    assert forall|i: int| 0 <= i < a.len() implies !stands_at(t, pat, i) by {
        if stands_at(t, pat, i) {
            assert(t.subrange(i, i + pat.len())[0] == t[i]);
            assert(a[i] == '_');
            assert(a.contains(a[i]));
        }
    }
    law_replacing(a, b, pat, rep);
    lemma_none_in_plain(b, pat, rep);
}

/// A placeholder does not stand where another one stands between texts without underscores.
proof fn lemma_other_place(a: Text, place: Text, b: Text, pat: Text, k: int, rep: Text)
    requires
        !a.contains('_'),
        !b.contains('_'),
        place.len() >= 4,
        2 < k < pat.len(),
        pat[0] == '_' && pat[1] == '_' && pat[k] == '_',
        place[2] != pat[2],
        forall|p: int| 0 < p < place.len() - 2 && #[trigger] place[p] == '_' ==> place[p + 1] != '_',
    ensures
        replace(a + place + b, pat, rep) == a + place + b,
{
    let t = a + place + b;
    assert forall|i: int| !stands_at(t, pat, i) by {
        if stands_at(t, pat, i) {
            let s = t.subrange(i, i + pat.len());
            assert(s[0] == t[i] && s[1] == t[i + 1] && s[2] == t[i + 2] && s[k] == t[i + k]);
            let p = i - a.len();
            if p < 0 {
                assert(a[i] == '_');
                assert(a.contains(a[i]));
            } else if p == 0 {
                assert(t[i + 2] == place[2]);
            } else if p < place.len() - 2 {
                assert(t[i] == place[p] && t[i + 1] == place[p + 1]);
            } else if p == place.len() - 2 {
                assert(t[i + k] == b[k - 2]);
                assert(b.contains(b[k - 2]));
            } else {
                assert(t[i + 1] == b[p + 1 - place.len()]);
                assert(b.contains(b[p + 1 - place.len()]));
            }
        }
    }
    law_replacing(t, t, pat, rep);
}

proof fn lemma_fill_plain(t: Text, scripts: Seq<Text>, bundle: Option<Text>, own: Text)
    requires
        !t.contains('_'),
    ensures
        shell_html(t, scripts, bundle, own) == t,
{
    reveal_strlit("__IGNIS_UI_SRC__");
    assert("__IGNIS_UI_SRC__"@.len() == 16);
    reveal_strlit("__SHIM_LOADER_SRC__");
    assert("__SHIM_LOADER_SRC__"@.len() == 19);
    reveal_strlit("__APP_CSS_SRC__");
    assert("__APP_CSS_SRC__"@.len() == 15);
    reveal_strlit("__OBSIDIAN_SCRIPTS__");
    assert("__OBSIDIAN_SCRIPTS__"@.len() == 20);
    lemma_none_in_plain(t, "__IGNIS_UI_SRC__"@, "ignis-ui.js?v="@ + own);
    lemma_none_in_plain(t, "__SHIM_LOADER_SRC__"@, "shim-loader.js?v="@ + own);
    lemma_none_in_plain(t, "__APP_CSS_SRC__"@, stamped("app.css"@, bundle));
    lemma_none_in_plain(
        t,
        "__OBSIDIAN_SCRIPTS__"@,
        json_text(strings_json(scripts.map_values(|s: Text| stamped(s, bundle)))),
    );
}

proof fn lemma_fill_ui(a: Text, b: Text, scripts: Seq<Text>, bundle: Text, own: Text)
    requires
        !a.contains('_'),
        !b.contains('_'),
        !(a + ("ignis-ui.js?v="@ + own) + b).contains('_'),
    ensures
        shell_html(a + "__IGNIS_UI_SRC__"@ + b, scripts, Some(bundle), own) == a + (
        "ignis-ui.js?v="@ + own) + b,
{
    reveal_strlit("__IGNIS_UI_SRC__");
    assert("__IGNIS_UI_SRC__"@.len() == 16);
    reveal_strlit("__SHIM_LOADER_SRC__");
    assert("__SHIM_LOADER_SRC__"@.len() == 19);
    reveal_strlit("__APP_CSS_SRC__");
    assert("__APP_CSS_SRC__"@.len() == 15);
    reveal_strlit("__OBSIDIAN_SCRIPTS__");
    assert("__OBSIDIAN_SCRIPTS__"@.len() == 20);
    let t = a + ("ignis-ui.js?v="@ + own) + b;
    lemma_own_place(a, "__IGNIS_UI_SRC__"@, b, "ignis-ui.js?v="@ + own);
    lemma_none_in_plain(t, "__SHIM_LOADER_SRC__"@, "shim-loader.js?v="@ + own);
    lemma_none_in_plain(t, "__APP_CSS_SRC__"@, stamped("app.css"@, Some(bundle)));
    lemma_none_in_plain(
        t,
        "__OBSIDIAN_SCRIPTS__"@,
        json_text(strings_json(scripts.map_values(|s: Text| stamped(s, Some(bundle))))),
    );
}

proof fn lemma_fill_shim(a: Text, b: Text, scripts: Seq<Text>, bundle: Text, own: Text)
    requires
        !a.contains('_'),
        !b.contains('_'),
        !(a + ("shim-loader.js?v="@ + own) + b).contains('_'),
    ensures
        shell_html(a + "__SHIM_LOADER_SRC__"@ + b, scripts, Some(bundle), own) == a + (
        "shim-loader.js?v="@ + own) + b,
{
    reveal_strlit("__IGNIS_UI_SRC__");
    assert("__IGNIS_UI_SRC__"@.len() == 16);
    reveal_strlit("__SHIM_LOADER_SRC__");
    assert("__SHIM_LOADER_SRC__"@.len() == 19);
    reveal_strlit("__APP_CSS_SRC__");
    assert("__APP_CSS_SRC__"@.len() == 15);
    reveal_strlit("__OBSIDIAN_SCRIPTS__");
    assert("__OBSIDIAN_SCRIPTS__"@.len() == 20);
    let t = a + ("shim-loader.js?v="@ + own) + b;
    lemma_other_place(a, "__SHIM_LOADER_SRC__"@, b, "__IGNIS_UI_SRC__"@, 7, "ignis-ui.js?v="@ + own);
    lemma_own_place(a, "__SHIM_LOADER_SRC__"@, b, "shim-loader.js?v="@ + own);
    lemma_none_in_plain(t, "__APP_CSS_SRC__"@, stamped("app.css"@, Some(bundle)));
    lemma_none_in_plain(
        t,
        "__OBSIDIAN_SCRIPTS__"@,
        json_text(strings_json(scripts.map_values(|s: Text| stamped(s, Some(bundle))))),
    );
}

proof fn lemma_fill_css(a: Text, b: Text, scripts: Seq<Text>, bundle: Option<Text>, own: Text)
    requires
        !a.contains('_'),
        !b.contains('_'),
        !(a + stamped("app.css"@, bundle) + b).contains('_'),
    ensures
        shell_html(a + "__APP_CSS_SRC__"@ + b, scripts, bundle, own) == a + stamped(
            "app.css"@,
            bundle,
        ) + b,
{
    reveal_strlit("__IGNIS_UI_SRC__");
    assert("__IGNIS_UI_SRC__"@.len() == 16);
    reveal_strlit("__SHIM_LOADER_SRC__");
    assert("__SHIM_LOADER_SRC__"@.len() == 19);
    reveal_strlit("__APP_CSS_SRC__");
    assert("__APP_CSS_SRC__"@.len() == 15);
    reveal_strlit("__OBSIDIAN_SCRIPTS__");
    assert("__OBSIDIAN_SCRIPTS__"@.len() == 20);
    let t = a + stamped("app.css"@, bundle) + b;
    lemma_other_place(a, "__APP_CSS_SRC__"@, b, "__IGNIS_UI_SRC__"@, 7, "ignis-ui.js?v="@ + own);
    lemma_other_place(a, "__APP_CSS_SRC__"@, b, "__SHIM_LOADER_SRC__"@, 6, "shim-loader.js?v="@ + own);
    lemma_own_place(a, "__APP_CSS_SRC__"@, b, stamped("app.css"@, bundle));
    lemma_none_in_plain(
        t,
        "__OBSIDIAN_SCRIPTS__"@,
        json_text(strings_json(scripts.map_values(|s: Text| stamped(s, bundle)))),
    );
}

proof fn lemma_fill_scripts(a: Text, b: Text, scripts: Seq<Text>, bundle: Option<Text>, own: Text)
    requires
        !a.contains('_'),
        !b.contains('_'),
    ensures
        shell_html(a + "__OBSIDIAN_SCRIPTS__"@ + b, scripts, bundle, own) == a + json_text(
            strings_json(scripts.map_values(|s: Text| stamped(s, bundle))),
        ) + b,
{
    reveal_strlit("__IGNIS_UI_SRC__");
    assert("__IGNIS_UI_SRC__"@.len() == 16);
    reveal_strlit("__SHIM_LOADER_SRC__");
    assert("__SHIM_LOADER_SRC__"@.len() == 19);
    reveal_strlit("__APP_CSS_SRC__");
    assert("__APP_CSS_SRC__"@.len() == 15);
    reveal_strlit("__OBSIDIAN_SCRIPTS__");
    assert("__OBSIDIAN_SCRIPTS__"@.len() == 20);
    lemma_other_place(a, "__OBSIDIAN_SCRIPTS__"@, b, "__IGNIS_UI_SRC__"@, 7, "ignis-ui.js?v="@ + own);
    lemma_other_place(a, "__OBSIDIAN_SCRIPTS__"@, b, "__SHIM_LOADER_SRC__"@, 6, "shim-loader.js?v="@ + own);
    lemma_other_place(a, "__OBSIDIAN_SCRIPTS__"@, b, "__APP_CSS_SRC__"@, 5, stamped("app.css"@, bundle));
    lemma_own_place(
        a,
        "__OBSIDIAN_SCRIPTS__"@,
        b,
        json_text(strings_json(scripts.map_values(|s: Text| stamped(s, bundle)))),
    );
}

/// A text that is set stands, and what stands in for it counts only where it is not set. An error
/// says what it holds.
pub proof fn law_what_is_set_counts(s: String, d: Text, e: ApiError)
    ensures
        or_text(Some(s), d) == s@,
        or_text(None, d) == d,
        ResourceError::NoVault@ == ResourceErrorView::NoVault,
        ResourceError::Refused(e)@ == ResourceErrorView::Refused(e@),
{
}

} // verus!
