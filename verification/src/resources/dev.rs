//! Development builds: which asset source to build on the fly, and what a
//! changed file asks of the browser.

use vstd::prelude::*;

use crate::text::{
    chars_of, decimal, decimal_string, ends_with, has_prefix, has_suffix, lemma_replace_all_at_front,
    lemma_replace_all_plain_front, lemma_trim_start_seq_once, push_char, replace_all,
    replace_all_str, starts_with, str_eq, string_of_range, trim_start_matches_str, trim_start_seq,
};
use crate::web::{join_path, path_join};

verus! {

/// The script that makes the browser reload the page.
pub const RELOAD_SCRIPT: &'static str = "location.reload()";

/// Whether a page built at `requested` must reload at once, before any file
/// changes: it was built by another run of the server than the one at
/// `built`.
pub fn reload_at_once(requested: u64, built: u64) -> (r: bool)
    ensures
        r == (requested != built),
{
    requested != built
}

/// Which tool builds an asset.
#[derive(Clone, Copy, Debug, PartialEq, Eq)]
pub enum AssetKind {
    /// A stylesheet, bundled with its imports.
    Css,
    /// A script, bundled from its TypeScript source.
    Js,
}

/// An asset to build on the fly: its kind and its source file.
pub struct AssetBuild {
    pub kind: AssetKind,
    pub source: String,
}

/// The index of the last `c` in `s`, or -1 where there is none.
pub open spec fn last_index_of(s: Seq<char>, c: char) -> int
    decreases s.len(),
{
    if s.len() == 0 {
        -1
    } else if s.last() == c {
        s.len() - 1
    } else {
        last_index_of(s.drop_last(), c)
    }
}

/// `p` with the extension of its file name set to `ts`: a file name without
/// an extension (none, or only a leading dot) gains `.ts`, one with an
/// extension has it replaced, and a path without a file name is kept.
pub open spec fn with_ts_extension(p: Seq<char>) -> Seq<char> {
    let slash = last_index_of(p, '/');
    let file = p.skip(slash + 1);
    let dot = last_index_of(file, '.');
    if file.len() == 0 || file == seq!['.', '.'] {
        p
    } else if dot > 0 {
        p.take(slash + 1 + dot) + ".ts"@
    } else {
        p + ".ts"@
    }
}

/// The index of the last `c` in `v`, if any.
fn last_index(v: &Vec<char>, c: char) -> (r: Option<usize>)
    ensures
        match r {
            Some(i) => i < v@.len() && last_index_of(v@, c) == i,
            None => last_index_of(v@, c) == -1,
        },
{
    let mut k: usize = v.len();
    assert(v@.take(k as int) == v@);
    while k > 0
        invariant
            k <= v@.len(),
            last_index_of(v@, c) == last_index_of(v@.take(k as int), c),
        decreases k,
    {
        if v[k - 1] == c {
            return Some(k - 1);
        }
        assert(v@.take(k as int).drop_last() == v@.take(k - 1));
        k = k - 1;
    }
    None
}

/// Sets the extension of the file name of `p` to `ts`.
pub fn set_ts_extension(p: &str) -> (r: String)
    ensures
        r@ == with_ts_extension(p@),
{
    let v = chars_of(p);
    let start: usize = match last_index(&v, '/') {
        Some(i) => {
            assert(i < v.len());
            i + 1
        },
        None => 0,
    };
    let file = string_of_range(&v, start, v.len());
    let fv = chars_of(file.as_str());
    assert(fv@ == v@.skip(start as int));
    let is_parent = fv.len() == 2 && fv[0] == '.' && fv[1] == '.';
    proof {
        if fv@.len() == 2 && fv@[0] == '.' && fv@[1] == '.' {
            assert(fv@ == seq!['.', '.']);
        }
    }
    if fv.len() == 0 || is_parent {
        return String::from_str(p);
    }
    match last_index(&fv, '.') {
        Some(d) => {
            if d > 0 {
                let mut r = string_of_range(&v, 0, start + d);
                r.append(".ts");
                return r;
            }
        },
        None => {},
    }
    let mut r = String::from_str(p);
    r.append(".ts");
    r
}

/// The source to build for a request of `path` that found no file, if any:
/// page assets come from the page templates' folder and others from the
/// assets folder, scripts from their TypeScript sources.
pub open spec fn asset_source(path: Seq<char>) -> Option<(AssetKind, Seq<char>)> {
    if has_prefix(path, "/assets/pages"@) {
        let rel = replace_all(path, "/assets/pages"@, "resources"@);
        if has_suffix(path, ".css"@) {
            Some((AssetKind::Css, path_join("src"@, rel)))
        } else if has_suffix(path, ".js"@) {
            Some((AssetKind::Js, with_ts_extension(path_join("src"@, rel))))
        } else {
            None
        }
    } else if has_prefix(path, "/assets"@) {
        if has_suffix(path, ".css"@) {
            Some((AssetKind::Css, path_join("src"@, path.drop_first())))
        } else if has_suffix(path, ".js"@) {
            Some((AssetKind::Js, with_ts_extension(path_join("src"@, replace_all(path, "/assets/js"@, "assets/ts"@)))))
        } else {
            None
        }
    } else {
        None
    }
}

/// The asset to build for a request of `path` that found no file, if any.
pub fn asset_build(path: &str) -> (r: Option<AssetBuild>)
    ensures
        match r {
            Some(b) => asset_source(path@) == Some((b.kind, b.source@)),
            None => asset_source(path@) is None,
        },
{
    let v = chars_of(path);
    let pages = chars_of("/assets/pages");
    let assets = chars_of("/assets");
    let css = chars_of(".css");
    let js = chars_of(".js");
    if starts_with(&v, &pages) {
        let rel = replace_all_str(path, "/assets/pages", "resources");
        if ends_with(&v, &css) {
            Some(AssetBuild { kind: AssetKind::Css, source: join_path("src", rel.as_str()) })
        } else if ends_with(&v, &js) {
            let joined = join_path("src", rel.as_str());
            Some(AssetBuild { kind: AssetKind::Js, source: set_ts_extension(joined.as_str()) })
        } else {
            None
        }
    } else if starts_with(&v, &assets) {
        proof {
            reveal_strlit("/assets");
        }
        assert(v@.len() >= 1);
        if ends_with(&v, &css) {
            let rest = string_of_range(&v, 1, v.len());
            assert(rest@ == path@.drop_first());
            Some(AssetBuild { kind: AssetKind::Css, source: join_path("src", rest.as_str()) })
        } else if ends_with(&v, &js) {
            let rel = replace_all_str(path, "/assets/js", "assets/ts");
            let joined = join_path("src", rel.as_str());
            Some(AssetBuild { kind: AssetKind::Js, source: set_ts_extension(joined.as_str()) })
        } else {
            None
        }
    } else {
        None
    }
}

/// Whether a part of a path, the text between two slashes, names no
/// component: it is empty or `.`.
pub open spec fn names_nothing(part: Seq<char>) -> bool {
    part.len() == 0 || part == seq!['.']
}

/// What is left of `p` once `n` more components are read, each with the
/// slash that ends it, where `part` is the text read so far of the part under
/// way. Parts that name nothing are passed over.
pub open spec fn after_components(p: Seq<char>, n: nat, part: Seq<char>) -> Seq<char>
    decreases p.len(),
{
    if n == 0 || p.len() == 0 {
        p
    } else if p[0] == '/' {
        if names_nothing(part) {
            after_components(p.drop_first(), n, Seq::empty())
        } else {
            after_components(p.drop_first(), (n - 1) as nat, Seq::empty())
        }
    } else {
        after_components(p.drop_first(), n, part.push(p[0]))
    }
}

/// `p` without the leading parts that name nothing.
pub open spec fn trim_leading_parts(p: Seq<char>) -> Seq<char>
    decreases p.len(),
{
    if p.len() > 0 && p[0] == '/' {
        trim_leading_parts(p.drop_first())
    } else if p.len() >= 2 && p[0] == '.' && p[1] == '/' {
        trim_leading_parts(p.skip(2))
    } else if p == seq!['.'] {
        Seq::empty()
    } else {
        p
    }
}

/// `p` without the trailing parts that name nothing.
pub open spec fn trim_trailing_parts(p: Seq<char>) -> Seq<char>
    decreases p.len(),
{
    if p.len() > 0 && p.last() == '/' {
        trim_trailing_parts(p.drop_last())
    } else if p.len() >= 2 && p.last() == '.' && p[p.len() - 2] == '/' {
        trim_trailing_parts(p.take(p.len() - 2))
    } else if p == seq!['.'] {
        Seq::empty()
    } else {
        p
    }
}

/// The text of the relative path `p` below its first two components, as
/// `Path::strip_prefix` gives it for a prefix of two components: the text
/// after them, without the parts at either end that name nothing.
pub open spec fn below_two_components(p: Seq<char>) -> Seq<char> {
    trim_trailing_parts(trim_leading_parts(after_components(p, 2, Seq::empty())))
}

/// The views of a list of strings.
pub open spec fn views(cs: Seq<String>) -> Seq<Seq<char>> {
    cs.map_values(|c: String| c@)
}

/// The path components start with `a` then `b`.
pub open spec fn under(cs: Seq<Seq<char>>, a: Seq<char>, b: Seq<char>) -> bool {
    cs.len() >= 2 && cs[0] == a && cs[1] == b
}

/// What a changed file asks of the browser.
pub enum HotReloadAction {
    /// Reload the template of this name, then the page.
    ReloadTemplate { name: String },
    /// Reload the page.
    Reload,
    /// Swap the stylesheet linked at `href` for a fresh copy.
    SwapStylesheet { href: String },
    /// Nothing.
    Ignore,
}

/// What a change of the file with path components `cs`, path text `path` and
/// extension `ext` asks of the browser: templates are reloaded under their
/// path below `src/resources`, stylesheets swapped (or the page reloaded for
/// partials, whose names start with `_`), scripts reload the page.
pub open spec fn hot_reload_outcome(cs: Seq<Seq<char>>, path: Seq<char>, ext: Seq<char>) -> HotReloadOutcome {
    if ext == "j2"@ {
        HotReloadOutcome::ReloadTemplate(below_two_components(path))
    } else if ext == "css"@ {
        if under(cs, "src"@, "assets"@) {
            if cs.len() > 0 && has_prefix(cs.last(), seq!['_']) {
                HotReloadOutcome::Reload
            } else {
                HotReloadOutcome::SwapStylesheet(trim_start_seq(path, "src"@))
            }
        } else if under(cs, "src"@, "resources"@) {
            HotReloadOutcome::SwapStylesheet("/assets/pages/"@ + below_two_components(path))
        } else {
            HotReloadOutcome::Ignore
        }
    } else if ext == "ts"@ {
        HotReloadOutcome::Reload
    } else {
        HotReloadOutcome::Ignore
    }
}

/// The view of a [`HotReloadAction`].
pub enum HotReloadOutcome {
    ReloadTemplate(Seq<char>),
    Reload,
    SwapStylesheet(Seq<char>),
    Ignore,
}

impl View for HotReloadAction {
    type V = HotReloadOutcome;

    open spec fn view(&self) -> HotReloadOutcome {
        match self {
            HotReloadAction::ReloadTemplate { name } => HotReloadOutcome::ReloadTemplate(name@),
            HotReloadAction::Reload => HotReloadOutcome::Reload,
            HotReloadAction::SwapStylesheet { href } => HotReloadOutcome::SwapStylesheet(href@),
            HotReloadAction::Ignore => HotReloadOutcome::Ignore,
        }
    }
}

/// Where the text after the first `n` components of `v` starts.
fn components_end(v: &Vec<char>, n: usize) -> (r: usize)
    ensures
        r <= v@.len(),
        v@.skip(r as int) == after_components(v@, n as nat, Seq::empty()),
{
    let mut i: usize = 0;
    let mut k: usize = n;
    let mut start: usize = 0;
    assert(v@.skip(0) == v@);
    assert(v@.subrange(0, 0) == Seq::<char>::empty());
    while k > 0 && i < v.len()
        invariant
            start <= i <= v@.len(),
            k <= n,
            after_components(v@, n as nat, Seq::empty()) == after_components(
                v@.skip(i as int),
                k as nat,
                v@.subrange(start as int, i as int),
            ),
        decreases v@.len() - i,
    {
        let ghost p = v@.skip(i as int);
        let ghost part = v@.subrange(start as int, i as int);
        assert(p[0] == v@[i as int]);
        assert(p.drop_first() == v@.skip(i + 1));
        if v[i] == '/' {
            let nothing = i == start || (i - start == 1 && v[start] == '.');
            proof {
                assert(part.len() == i - start);
                if i - start == 1 && v@[start as int] == '.' {
                    assert(part =~= seq!['.']);
                }
                if part == seq!['.'] {
                    assert(part[0] == v@[start as int]);
                }
            }
            assert(nothing == names_nothing(part));
            if !nothing {
                k = k - 1;
            }
            i = i + 1;
            start = i;
            assert(v@.subrange(start as int, i as int) == Seq::<char>::empty());
        } else {
            assert(part.push(v@[i as int]) == v@.subrange(start as int, i + 1));
            i = i + 1;
        }
    }
    i
}

/// Where the text of `v[lo..hi]` starts once its leading parts that name
/// nothing are dropped.
fn leading_parts_end(v: &Vec<char>, lo: usize, hi: usize) -> (r: usize)
    requires
        lo <= hi <= v@.len(),
    ensures
        lo <= r <= hi,
        trim_leading_parts(v@.subrange(lo as int, hi as int)) == v@.subrange(r as int, hi as int),
{
    let mut i: usize = lo;
    loop
        invariant
            lo <= i <= hi,
            hi <= v@.len(),
            trim_leading_parts(v@.subrange(lo as int, hi as int)) == trim_leading_parts(
                v@.subrange(i as int, hi as int),
            ),
        decreases hi - i,
    {
        let ghost p = v@.subrange(i as int, hi as int);
        if i < hi && v[i] == '/' {
            assert(p.drop_first() == v@.subrange(i + 1, hi as int));
            i = i + 1;
        } else if i < hi && hi - i > 1 && v[i] == '.' && v[i + 1] == '/' {
            assert(p.skip(2) == v@.subrange(i + 2, hi as int));
            i = i + 2;
        } else if i < hi && hi - i == 1 && v[i] == '.' {
            assert(p == seq!['.']);
            assert(v@.subrange(hi as int, hi as int) == Seq::<char>::empty());
            return hi;
        } else {
            proof {
                if p == seq!['.'] {
                    assert(p[0] == v@[i as int]);
                }
            }
            return i;
        }
    }
}

/// Where the text of `v[lo..hi]` ends once its trailing parts that name
/// nothing are dropped.
fn trailing_parts_start(v: &Vec<char>, lo: usize, hi: usize) -> (r: usize)
    requires
        lo <= hi <= v@.len(),
    ensures
        lo <= r <= hi,
        trim_trailing_parts(v@.subrange(lo as int, hi as int)) == v@.subrange(lo as int, r as int),
{
    let mut j: usize = hi;
    loop
        invariant
            lo <= j <= hi,
            hi <= v@.len(),
            trim_trailing_parts(v@.subrange(lo as int, hi as int)) == trim_trailing_parts(
                v@.subrange(lo as int, j as int),
            ),
        decreases j - lo,
    {
        let ghost p = v@.subrange(lo as int, j as int);
        if j > lo && v[j - 1] == '/' {
            assert(p.drop_last() == v@.subrange(lo as int, j - 1));
            j = j - 1;
        } else if j - lo >= 2 && v[j - 1] == '.' && v[j - 2] == '/' {
            assert(p.take(p.len() - 2) == v@.subrange(lo as int, j - 2));
            j = j - 2;
        } else if j - lo == 1 && v[lo] == '.' {
            assert(p == seq!['.']);
            assert(v@.subrange(lo as int, lo as int) == Seq::<char>::empty());
            return lo;
        } else {
            proof {
                if p == seq!['.'] {
                    assert(p[0] == v@[lo as int]);
                }
            }
            return j;
        }
    }
}

/// The text of the relative path `path` below its first two components.
fn text_below_two_components(path: &str) -> (r: String)
    ensures
        r@ == below_two_components(path@),
{
    let v = chars_of(path);
    let a = components_end(&v, 2);
    assert(v@.skip(a as int) == v@.subrange(a as int, v@.len() as int));
    let b = leading_parts_end(&v, a, v.len());
    let e = trailing_parts_start(&v, b, v.len());
    string_of_range(&v, b, e)
}

/// Whether the components start with `a` then `b`.
fn is_under(cs: &Vec<String>, a: &str, b: &str) -> (r: bool)
    ensures
        r == under(views(cs@), a@, b@),
{
    cs.len() >= 2 && str_eq(cs[0].as_str(), a) && str_eq(cs[1].as_str(), b)
}

/// What a change of a file asks of the browser. A changed template must lie
/// under `src/resources`.
pub fn hot_reload_action(cs: &Vec<String>, path: &str, ext: &str) -> (r: HotReloadAction)
    requires
        ext@ == "j2"@ ==> under(views(cs@), "src"@, "resources"@),
    ensures
        r@ == hot_reload_outcome(views(cs@), path@, ext@),
{
    if str_eq(ext, "j2") {
        HotReloadAction::ReloadTemplate { name: text_below_two_components(path) }
    } else if str_eq(ext, "css") {
        if is_under(cs, "src", "assets") {
            let last = chars_of(cs[cs.len() - 1].as_str());
            let underscore = chars_of("_");
            proof {
                reveal_strlit("_");
            }
            assert(underscore@ == seq!['_']);
            if starts_with(&last, &underscore) {
                HotReloadAction::Reload
            } else {
                HotReloadAction::SwapStylesheet { href: trim_start_matches_str(path, "src") }
            }
        } else if is_under(cs, "src", "resources") {
            let mut href = String::from_str("/assets/pages/");
            let rest = text_below_two_components(path);
            href.append(rest.as_str());
            HotReloadAction::SwapStylesheet { href }
        } else {
            HotReloadAction::Ignore
        }
    } else if str_eq(ext, "ts") {
        HotReloadAction::Reload
    } else {
        HotReloadAction::Ignore
    }
}

/// The script that swaps the stylesheet linked at `href` for a fresh copy.
pub open spec fn swap_script(href: Seq<char>) -> Seq<char> {
    "(()=>{const n='"@ + href
        + "',e=document.querySelector(`link[href^='${n}']`);if(!e)return;const t=e.cloneNode(!0);t.href=`${n}?t=${new Date().valueOf()}`,document.head.append(t),e.remove()})();"@
}

/// Builds the script that swaps the stylesheet linked at `href`.
pub fn stylesheet_swap_script(href: &str) -> (r: String)
    ensures
        r@ == swap_script(href@),
{
    let mut r = String::from_str("(()=>{const n='");
    r.append(href);
    r.append(
        "',e=document.querySelector(`link[href^='${n}']`);if(!e)return;const t=e.cloneNode(!0);t.href=`${n}?t=${new Date().valueOf()}`,document.head.append(t),e.remove()})();",
    );
    r
}

/// The base template of a development build, whose body asks the server to
/// report changes made after the build at `timestamp`.
pub open spec fn hot_reload_layout(base: Seq<char>, timestamp: nat) -> Seq<char> {
    replace_all(
        base,
        "<body"@,
        "<body data-init=\"@get('/.hotreload?t="@ + decimal(timestamp)
            + "',{retryScaler:1,retryMaxCount:60})\""@,
    )
}

/// Hooks the change reporter of a development build into the base template.
pub fn with_hot_reload_hook(base: &str, timestamp: u64) -> (r: String)
    ensures
        r@ == hot_reload_layout(base@, timestamp as nat),
{
    let mut tag = String::from_str("<body data-init=\"@get('/.hotreload?t=");
    let digits = decimal_string(timestamp);
    tag.append(digits.as_str());
    tag.append("',{retryScaler:1,retryMaxCount:60})\"");
    replace_all_str(base, "<body", tag.as_str())
}

/// What the file watcher asks of the browser when a file changes.
pub enum WatchAction {
    /// Reload the stylesheet served at `href`.
    StylesheetChanged { href: String },
    /// Reload the templates, then the page.
    Reload,
}

/// The stylesheet to reload for a change of the file at `path` with extension
/// `ext`, seen from the working directory `pwd`; none where the page reloads.
pub open spec fn watched_stylesheet(path: Seq<char>, ext: Seq<char>, pwd: Seq<char>) -> Option<Seq<char>> {
    if ext == "css"@ {
        Some(trim_start_seq(path, pwd))
    } else {
        None
    }
}

/// What a change of the file at `path` asks of the browser.
pub fn watch_action(path: &str, ext: &str, pwd: &str) -> (r: WatchAction)
    ensures
        match r {
            WatchAction::StylesheetChanged { href } => watched_stylesheet(path@, ext@, pwd@) == Some(href@),
            WatchAction::Reload => watched_stylesheet(path@, ext@, pwd@) is None,
        },
{
    if str_eq(ext, "css") {
        WatchAction::StylesheetChanged { href: trim_start_matches_str(path, pwd) }
    } else {
        WatchAction::Reload
    }
}

} // verus!

verus! {

/// The three extensions that a change is told apart by differ.
proof fn lemma_extensions_differ()
    ensures
        "ts"@ != "j2"@,
        "ts"@ != "css"@,
        "css"@ != "j2"@,
        "assets"@ != "resources"@,
{
    reveal_strlit("ts");
    reveal_strlit("j2");
    reveal_strlit("css");
    reveal_strlit("assets");
    reveal_strlit("resources");
    assert("ts"@[0] != "j2"@[0]);
    assert("assets"@[0] != "resources"@[0]);
}

/// A changed TypeScript file reloads the page, wherever it lies.
pub proof fn lemma_script_change_reloads(cs: Seq<Seq<char>>, path: Seq<char>)
    ensures
        hot_reload_outcome(cs, path, "ts"@) == HotReloadOutcome::Reload,
{
    lemma_extensions_differ();
}

/// A changed file whose extension is none of `j2`, `css` and `ts` asks
/// nothing of the browser.
pub proof fn lemma_other_changes_ignored(cs: Seq<Seq<char>>, path: Seq<char>, ext: Seq<char>)
    requires
        ext != "j2"@,
        ext != "css"@,
        ext != "ts"@,
    ensures
        hot_reload_outcome(cs, path, ext) == HotReloadOutcome::Ignore,
{
}

/// A changed template is reloaded, under its path below its first two
/// components.
pub proof fn lemma_template_change_reloads_template(cs: Seq<Seq<char>>, path: Seq<char>)
    ensures
        hot_reload_outcome(cs, path, "j2"@) == HotReloadOutcome::ReloadTemplate(below_two_components(path)),
{
}

/// A changed stylesheet under `src/assets` reloads the page where its file
/// name starts with `_`, and otherwise swaps the stylesheet served at its path
/// without the leading `src`; one under `src/resources` swaps the page
/// stylesheet at `/assets/pages/` and its path below `src/resources`; any
/// other asks nothing.
pub proof fn lemma_stylesheet_change(cs: Seq<Seq<char>>, path: Seq<char>)
    ensures
        cs.len() >= 2 && cs[0] == "src"@ && cs[1] == "assets"@ ==> hot_reload_outcome(cs, path, "css"@) == if cs.last().len() > 0 && cs.last()[0] == '_' {
            HotReloadOutcome::Reload
        } else {
            HotReloadOutcome::SwapStylesheet(trim_start_seq(path, "src"@))
        },
        cs.len() >= 2 && cs[0] == "src"@ && cs[1] == "resources"@ ==> hot_reload_outcome(cs, path, "css"@)
            == HotReloadOutcome::SwapStylesheet("/assets/pages/"@ + below_two_components(path)),
        !(cs.len() >= 2 && cs[0] == "src"@ && (cs[1] == "assets"@ || cs[1] == "resources"@)) ==> hot_reload_outcome(cs, path, "css"@) == HotReloadOutcome::Ignore,
{
    lemma_extensions_differ();
    if cs.len() > 0 {
        let l = cs.last();
        if l.len() > 0 && l[0] == '_' {
            assert(l.take(1) == seq!['_']);
        }
        if has_prefix(l, seq!['_']) {
            assert(l.take(1)[0] == l[0]);
        }
    }
}

/// A path whose file name is neither empty nor `..` ends in `.ts` once its
/// extension is set.
pub proof fn lemma_ts_extension_suffix(p: Seq<char>)
    ensures
        ({
            let file = p.skip(last_index_of(p, '/') + 1);
            file.len() > 0 && file != seq!['.', '.']
        }) ==> has_suffix(with_ts_extension(p), ".ts"@),
{
    let r = with_ts_extension(p);
    let slash = last_index_of(p, '/');
    let file = p.skip(slash + 1);
    let dot = last_index_of(file, '.');
    if file.len() > 0 && file != seq!['.', '.'] {
        if dot > 0 {
            let a = p.take(slash + 1 + dot);
            assert((a + ".ts"@).skip(a.len() as int) == ".ts"@);
        } else {
            assert((p + ".ts"@).skip(p.len() as int) == ".ts"@);
        }
    }
}

/// The last `c` of `s` followed by text without `c` is the last `c` of `s`.
proof fn lemma_last_index_of_append(s: Seq<char>, t: Seq<char>, c: char)
    requires
        forall|i: int| 0 <= i < t.len() ==> t[i] != c,
    ensures
        last_index_of(s + t, c) == last_index_of(s, c),
        -1 <= last_index_of(s, c) < s.len(),
    decreases t.len(),
{
    if t.len() > 0 {
        assert((s + t).drop_last() == s + t.drop_last());
        assert((s + t).last() == t.last());
        lemma_last_index_of_append(s, t.drop_last(), c);
    } else {
        assert(s + t == s);
        lemma_last_index_of_bounds(s, c);
    }
}

/// The last `c` of `s`, if any, lies in `s` and is `c`.
proof fn lemma_last_index_of_bounds(s: Seq<char>, c: char)
    ensures
        -1 <= last_index_of(s, c) < s.len(),
        last_index_of(s, c) >= 0 ==> s[last_index_of(s, c)] == c,
        forall|i: int| last_index_of(s, c) < i < s.len() ==> s[i] != c,
    decreases s.len(),
{
    if s.len() > 0 && s.last() != c {
        lemma_last_index_of_bounds(s.drop_last(), c);
        assert forall|i: int| last_index_of(s, c) < i < s.len() implies s[i] != c by {
            if i < s.len() - 1 {
                assert(s[i] == s.drop_last()[i]);
            }
        }
        if last_index_of(s, c) >= 0 {
            assert(s[last_index_of(s, c)] == s.drop_last()[last_index_of(s, c)]);
        }
    }
}

/// A script path `x.js` whose file name is more than `.js` has the source
/// `x.ts`: setting the extension to `ts` replaces `js`.
pub proof fn lemma_js_source_is_ts(x: Seq<char>)
    requires
        x.len() > 0,
        x.last() != '/',
    ensures
        with_ts_extension(x + ".js"@) == x + ".ts"@,
{
    reveal_strlit(".js");
    reveal_strlit(".ts");
    let p = x + ".js"@;
    let js = seq!['j', 's'];
    assert(".js"@ == seq!['.'] + js);
    assert(p == x.push('.') + js);
    lemma_last_index_of_append(x.push('.'), js, '/');
    lemma_last_index_of_append(x, seq!['.'], '/');
    assert(x.push('.') == x + seq!['.']);
    lemma_last_index_of_bounds(x, '/');
    let slash = last_index_of(p, '/');
    assert(slash == last_index_of(x, '/'));
    assert(slash < x.len() - 1) by {
        if slash == x.len() - 1 {
            assert(x[slash] == '/');
        }
    }
    let file = p.skip(slash + 1);
    let stem = x.skip(slash + 1);
    assert(file == stem.push('.') + js);
    lemma_last_index_of_append(stem.push('.'), js, '.');
    assert(last_index_of(stem.push('.'), '.') == stem.len());
    let dot = last_index_of(file, '.');
    assert(dot == stem.len());
    assert(file.len() == stem.len() + 3);
    assert(file != seq!['.', '.']);
    assert(p.take(slash + 1 + dot) == x);
}

/// A stylesheet asked for under `/assets` is built from `src` followed by its
/// path, and one under `/assets/pages` from `src/` followed by its path with
/// `/assets/pages` replaced by `resources`.
pub proof fn lemma_stylesheet_source(path: Seq<char>)
    ensures
        has_prefix(path, "/assets"@) && !has_prefix(path, "/assets/pages"@) && has_suffix(path, ".css"@)
            ==> asset_source(path) == Some((AssetKind::Css, "src"@ + path)),
        has_prefix(path, "/assets/pages"@) && has_suffix(path, ".css"@) ==> asset_source(path) == Some(
            (AssetKind::Css, "src/"@ + replace_all(path, "/assets/pages"@, "resources"@)),
        ),
{
    reveal_strlit("/assets");
    reveal_strlit("/assets/pages");
    reveal_strlit("resources");
    reveal_strlit("src");
    reveal_strlit("src/");
    assert("src/"@ == "src"@ + seq!['/']);
    if has_prefix(path, "/assets"@) {
        assert(path[0] == "/assets"@[0]);
        assert(path[1] == "/assets"@[1]);
        let rest = path.drop_first();
        assert(rest[0] == 'a');
        assert("src"@ + seq!['/'] + rest == "src"@ + path);
    }
    if has_prefix(path, "/assets/pages"@) {
        let rel = replace_all(path, "/assets/pages"@, "resources"@);
        assert(path.len() > 0);
        assert(rel == "resources"@ + replace_all(path.skip("/assets/pages"@.len() as int), "/assets/pages"@, "resources"@));
        assert(rel[0] == 'r');
        assert(path_join("src"@, rel) == "src"@ + seq!['/'] + rel);
    }
}

/// Only requests under `/assets` that end in `.css` or `.js` are built from
/// source: stylesheets for `.css`, scripts for `.js`.
pub proof fn lemma_asset_kind(path: Seq<char>)
    ensures
        asset_source(path) is Some <==> has_prefix(path, "/assets"@) && (has_suffix(path, ".css"@) || has_suffix(
            path,
            ".js"@,
        )),
        asset_source(path) matches Some((k, _)) ==> (k == AssetKind::Css <==> has_suffix(path, ".css"@)),
{
    reveal_strlit("/assets");
    reveal_strlit("/assets/pages");
    if has_prefix(path, "/assets/pages"@) {
        assert("/assets/pages"@.take(7) == "/assets"@);
        assert(path.take(7) == path.take(13).take(7));
    }
}

/// Reading a component `w`, text without a slash, moves it from the path to
/// the part under way.
proof fn lemma_after_component_text(w: Seq<char>, rest: Seq<char>, k: nat, part: Seq<char>)
    requires
        k > 0,
        forall|i: int| 0 <= i < w.len() ==> w[i] != '/',
    ensures
        after_components(w + rest, k, part) == after_components(rest, k, part + w),
    decreases w.len(),
{
    if w.len() == 0 {
        assert(w + rest == rest);
        assert(part + w == part);
    } else {
        let p = w + rest;
        assert(p[0] == w[0]);
        assert(p.drop_first() == w.drop_first() + rest);
        lemma_after_component_text(w.drop_first(), rest, k, part.push(w[0]));
        assert(part.push(w[0]) + w.drop_first() == part + w);
    }
}

/// Below two components `a` and `b`, each a name followed by a single slash,
/// lies the rest of the path as it is written, where that rest starts and
/// ends with neither a slash nor a dot: a changed template
/// `src/resources/index/page.j2` is named `index/page.j2`.
pub proof fn lemma_below_two_components_plain(a: Seq<char>, b: Seq<char>, n: Seq<char>)
    requires
        a.len() > 0 && a != seq!['.'] && forall|i: int| 0 <= i < a.len() ==> a[i] != '/',
        b.len() > 0 && b != seq!['.'] && forall|i: int| 0 <= i < b.len() ==> b[i] != '/',
        n.len() > 0,
        n[0] != '/' && n[0] != '.',
        n.last() != '/' && n.last() != '.',
    ensures
        below_two_components(a + seq!['/'] + b + seq!['/'] + n) == n,
{
    let slash = seq!['/'];
    let p = a + slash + b + slash + n;
    let r2 = slash + n;
    let r1 = b + r2;
    let r0 = slash + r1;
    assert(p == a + r0);
    lemma_after_component_text(a, r0, 2, Seq::empty());
    assert(Seq::<char>::empty() + a == a);
    assert(r0[0] == '/');
    assert(r0.drop_first() == r1);
    assert(!names_nothing(a));
    assert(after_components(r0, 2, a) == after_components(r1, 1, Seq::empty()));
    lemma_after_component_text(b, r2, 1, Seq::empty());
    assert(Seq::<char>::empty() + b == b);
    assert(r2[0] == '/');
    assert(r2.drop_first() == n);
    assert(!names_nothing(b));
    assert(after_components(r2, 1, b) == after_components(n, 0, Seq::empty()));
    assert(after_components(p, 2, Seq::empty()) == n);
    assert(n != seq!['.']) by {
        if n == seq!['.'] {
            assert(n[0] == '.');
        }
    }
    assert(trim_leading_parts(n) == n);
    assert(trim_trailing_parts(n) == n);
}

/// A changed stylesheet under `src/assets` whose name does not start with
/// `_` swaps the stylesheet served at its path without the leading `src`.
pub proof fn lemma_asset_stylesheet_href(cs: Seq<Seq<char>>, r: Seq<char>)
    requires
        cs.len() >= 2 && cs[0] == "src"@ && cs[1] == "assets"@,
        cs.last().len() == 0 || cs.last()[0] != '_',
        !has_prefix(r, "src"@),
    ensures
        hot_reload_outcome(cs, "src"@ + r, "css"@) == HotReloadOutcome::SwapStylesheet(r),
{
    lemma_stylesheet_change(cs, "src"@ + r);
    reveal_strlit("src");
    lemma_trim_start_seq_once("src"@, r);
}

/// The development watcher swaps a changed stylesheet, served at its path
/// below the working directory, and reloads the page for any other change.
pub proof fn lemma_watched_stylesheet_law(pwd: Seq<char>, r: Seq<char>, ext: Seq<char>)
    requires
        pwd.len() > 0,
        !has_prefix(r, pwd),
    ensures
        ext == "css"@ ==> watched_stylesheet(pwd + r, ext, pwd) == Some(r),
        ext != "css"@ ==> watched_stylesheet(pwd + r, ext, pwd) is None,
{
    lemma_trim_start_seq_once(pwd, r);
}

/// A base template with one body tag, and no other `<`, gets the change
/// reporter hooked into that tag, and the rest is kept as it is.
pub proof fn lemma_hot_reload_hook_in_body(pre: Seq<char>, post: Seq<char>, timestamp: nat)
    requires
        forall|i: int| 0 <= i < pre.len() ==> pre[i] != '<',
        forall|i: int| 0 <= i < post.len() ==> post[i] != '<',
    ensures
        hot_reload_layout(pre + "<body"@ + post, timestamp) == pre + "<body data-init=\"@get('/.hotreload?t="@
            + decimal(timestamp) + "',{retryScaler:1,retryMaxCount:60})\""@ + post,
{
    let to = "<body data-init=\"@get('/.hotreload?t="@ + decimal(timestamp) + "',{retryScaler:1,retryMaxCount:60})\""@;
    let from = "<body"@;
    reveal_strlit("<body");
    assert(from[0] == '<');
    assert(pre + from + post == pre + (from + post));
    lemma_replace_all_plain_front(pre, from + post, from, to);
    lemma_replace_all_at_front(post, from, to);
    lemma_replace_all_plain_front(post, Seq::empty(), from, to);
    assert(post + Seq::<char>::empty() == post);
    assert(replace_all(Seq::<char>::empty(), from, to) == Seq::<char>::empty());
    assert(pre + (to + post) == pre + to + post);
}

} // verus!
