//! The update engine: applies a target version string to every leaf each
//! configured selector denotes, for one file's text and for a whole run of
//! configured files.
//!
//! JSON files are reserialized in canonical pretty form with one trailing
//! newline on any change; TOML files keep all untouched text and gain a
//! trailing newline only if missing. Files are processed in ascending path
//! order and the first error aborts the run, without undoing earlier writes.

use vstd::prelude::*;

use crate::config::VersionFileFormat;
use crate::doc::{DocNode, DocView, PathStep, StepV, doc_at, doc_set, node_at, path_view};
use crate::jsonio::{
    json_doc_of, json_parse, json_pretty_of, json_set_str, json_to_node, json_to_pretty, json_view,
};
use crate::pathord::{chars_lt, paths_view};
use crate::resolve::{RErrV, ResolveError, resolve_selector, spec_resolve};
use crate::selector::{SegV, SelectorError, VersionSelector, parse_selector, spec_parse_selector};
use crate::textutil::{eq_ignore_ascii_case, rfind_char, rfind_char_spec, str_eq, trim_spec, trim_str};
use crate::tomlio::{
    toml_doc_of, toml_doc_text, toml_doc_to_node, toml_parse, toml_parse_text_of, toml_set_str,
    toml_set_text_of, toml_shape, toml_text,
};

verus! {

/// The files whose on-disk bytes a run changed, in processing order.
#[derive(Debug, Clone, PartialEq, Eq)]
pub struct UpdateReport {
    pub changed_files: Vec<String>,
}

/// Why an update run failed.
#[derive(Debug, Clone, PartialEq, Eq)]
pub enum UpdateError {
    /// A configured file does not exist.
    FileNotFound { path: String },
    /// The file's extension gives no format and no override was configured.
    FormatUndetected { path: String },
    /// The file's text is not a syntactically valid document.
    DocumentParse { path: String, format: VersionFileFormat },
    /// A configured selector string violates the selector grammar.
    SelectorSyntax { path: String, selector: String, reason: SelectorError },
    /// A qualifier expects a shape the document does not have.
    SelectorTypeMismatch { path: String, selector: String, reason: ResolveError },
    /// A selector resolved to no leaf at all.
    SelectorNoMatch { path: String, selector: String },
    /// A selector matched a leaf that is not a string scalar.
    NonStringTarget { path: String, selector: String },
    /// The resolver and the mutation pass disagreed on the document shape:
    /// a defect of this engine, not of the configuration.
    InternalInvariantViolation { path: String, selector: String },
}

/// Mathematical view of `UpdateError`.
pub enum UErrV {
    FileNotFound(Seq<char>),
    FormatUndetected(Seq<char>),
    DocumentParse(Seq<char>, VersionFileFormat),
    SelectorSyntax(Seq<char>, Seq<char>, SelectorError),
    SelectorTypeMismatch(Seq<char>, Seq<char>, RErrV),
    SelectorNoMatch(Seq<char>, Seq<char>),
    NonStringTarget(Seq<char>, Seq<char>),
    InternalInvariantViolation(Seq<char>, Seq<char>),
}

impl View for UpdateError {
    type V = UErrV;

    open spec fn view(&self) -> UErrV {
        match self {
            UpdateError::FileNotFound { path } => UErrV::FileNotFound(path@),
            UpdateError::FormatUndetected { path } => UErrV::FormatUndetected(path@),
            UpdateError::DocumentParse { path, format } => UErrV::DocumentParse(path@, *format),
            UpdateError::SelectorSyntax { path, selector, reason } => UErrV::SelectorSyntax(
                path@,
                selector@,
                *reason,
            ),
            UpdateError::SelectorTypeMismatch { path, selector, reason } => {
                UErrV::SelectorTypeMismatch(path@, selector@, reason@)
            },
            UpdateError::SelectorNoMatch { path, selector } => UErrV::SelectorNoMatch(
                path@,
                selector@,
            ),
            UpdateError::NonStringTarget { path, selector } => UErrV::NonStringTarget(
                path@,
                selector@,
            ),
            UpdateError::InternalInvariantViolation { path, selector } => {
                UErrV::InternalInvariantViolation(path@, selector@)
            },
        }
    }
}

impl UpdateError {
    /// The user-facing message, naming the file and, where applicable, the
    /// selector text.
    pub open spec fn message_spec(&self) -> Seq<char> {
        match self {
            UpdateError::FileNotFound { path } => "Configured version update file `"@ + path@
                + "` was not found."@,
            UpdateError::FormatUndetected { path } => "Cannot infer file format for `"@ + path@
                + "`. Use `release_pr.format_overrides` with `json` or `toml`."@,
            UpdateError::DocumentParse { path, format } => "Failed to parse "@ + (if format
                is Json {
                "JSON"@
            } else {
                "TOML"@
            }) + " file `"@ + path@ + "`."@,
            UpdateError::SelectorSyntax { path, selector, reason } => "Invalid version selector `"@
                + selector@ + "` while updating `"@ + path@ + "`. "@ + reason.message_spec(
                selector@,
            ),
            UpdateError::SelectorTypeMismatch { path, selector, reason } => match reason {
                ResolveError::ExpectsArray { segment } => "Selector `"@ + selector@
                    + "` expects segment `"@ + segment@ + "` to be an array in `"@ + path@ + "`."@,
                ResolveError::ElementsNotMappings { segment } => "Selector `"@ + selector@
                    + "` expects all elements under `"@ + segment@ + "` to be mappings in `"@
                    + path@ + "`."@,
                ResolveError::FilterFieldNotString { field } => "Selector `"@ + selector@
                    + "` expects filter field `"@ + field@ + "` to be a string in `"@ + path@
                    + "`."@,
                ResolveError::NoMatch => "Selector `"@ + selector@ + "` matched no values in `"@
                    + path@ + "`."@,
            },
            UpdateError::SelectorNoMatch { path, selector } => "Selector `"@ + selector@
                + "` matched no values in `"@ + path@ + "`."@,
            UpdateError::NonStringTarget { path, selector } => "Selector `"@ + selector@
                + "` matched a non-string value in `"@ + path@ + "`."@,
            UpdateError::InternalInvariantViolation { path, selector } => {
                "Internal selector path resolution error for `"@ + selector@ + "` in `"@ + path@
                    + "`."@
            },
        }
    }

    /// Builds the user-facing message.
    pub fn message(&self) -> (r: String)
        ensures
            r@ == self.message_spec(),
    {
        match self {
            UpdateError::FileNotFound { path } => {
                let mut s = "Configured version update file `".to_owned();
                s.append(path.as_str());
                s.append("` was not found.");
                s
            },
            UpdateError::FormatUndetected { path } => {
                let mut s = "Cannot infer file format for `".to_owned();
                s.append(path.as_str());
                s.append("`. Use `release_pr.format_overrides` with `json` or `toml`.");
                s
            },
            UpdateError::DocumentParse { path, format } => {
                let mut s = "Failed to parse ".to_owned();
                match format {
                    VersionFileFormat::Json => s.append("JSON"),
                    VersionFileFormat::Toml => s.append("TOML"),
                }
                s.append(" file `");
                s.append(path.as_str());
                s.append("`.");
                s
            },
            UpdateError::SelectorSyntax { path, selector, reason } => {
                let mut s = "Invalid version selector `".to_owned();
                s.append(selector.as_str());
                s.append("` while updating `");
                s.append(path.as_str());
                s.append("`. ");
                let inner = reason.message(selector.as_str());
                s.append(inner.as_str());
                s
            },
            UpdateError::SelectorTypeMismatch { path, selector, reason } => {
                match reason {
                    ResolveError::ExpectsArray { segment } => {
                        let mut s = "Selector `".to_owned();
                        s.append(selector.as_str());
                        s.append("` expects segment `");
                        s.append(segment.as_str());
                        s.append("` to be an array in `");
                        s.append(path.as_str());
                        s.append("`.");
                        s
                    },
                    ResolveError::ElementsNotMappings { segment } => {
                        let mut s = "Selector `".to_owned();
                        s.append(selector.as_str());
                        s.append("` expects all elements under `");
                        s.append(segment.as_str());
                        s.append("` to be mappings in `");
                        s.append(path.as_str());
                        s.append("`.");
                        s
                    },
                    ResolveError::FilterFieldNotString { field } => {
                        let mut s = "Selector `".to_owned();
                        s.append(selector.as_str());
                        s.append("` expects filter field `");
                        s.append(field.as_str());
                        s.append("` to be a string in `");
                        s.append(path.as_str());
                        s.append("`.");
                        s
                    },
                    ResolveError::NoMatch => {
                        let mut s = "Selector `".to_owned();
                        s.append(selector.as_str());
                        s.append("` matched no values in `");
                        s.append(path.as_str());
                        s.append("`.");
                        s
                    },
                }
            },
            UpdateError::SelectorNoMatch { path, selector } => {
                let mut s = "Selector `".to_owned();
                s.append(selector.as_str());
                s.append("` matched no values in `");
                s.append(path.as_str());
                s.append("`.");
                s
            },
            UpdateError::NonStringTarget { path, selector } => {
                let mut s = "Selector `".to_owned();
                s.append(selector.as_str());
                s.append("` matched a non-string value in `");
                s.append(path.as_str());
                s.append("`.");
                s
            },
            UpdateError::InternalInvariantViolation { path, selector } => {
                let mut s = "Internal selector path resolution error for `".to_owned();
                s.append(selector.as_str());
                s.append("` in `");
                s.append(path.as_str());
                s.append("`.");
                s
            },
        }
    }
}

/// Why writing one resolved path failed.
pub enum MutErrV {
    NonString,
    Internal,
}

/// Why one selector failed against one document.
pub enum FErrV {
    Res(RErrV),
    Mutate(MutErrV),
}

/// Why one file's content update failed.
pub enum ContentErrV {
    Syntax(int, SelectorError),
    Parse,
    Apply(int, FErrV),
}

/// The views of a list of selector strings.
pub open spec fn sels_view(sels: Seq<String>) -> Seq<Seq<char>> {
    sels.map_values(|s: String| s@)
}

/// Model of parsing every configured selector in order.
pub open spec fn parse_all(sels: Seq<Seq<char>>, k: int) -> Result<
    Seq<Seq<SegV>>,
    (int, SelectorError),
>
    decreases sels.len() - k,
{
    if k < 0 || k >= sels.len() {
        Ok(Seq::empty())
    } else {
        match spec_parse_selector(trim_spec(sels[k])) {
            Err(e) => Err((k, e)),
            Ok(sv) => match parse_all(sels, k + 1) {
                Err(p) => Err(p),
                Ok(rest) => Ok(seq![sv] + rest),
            },
        }
    }
}

/// Model of writing the target over the leaves at `paths[j..]`, in order:
/// a missing path is an internal fault, a non-string leaf rejects the
/// selector, and a leaf already equal to the target changes nothing.
pub open spec fn apply_paths(
    d: DocView,
    paths: Seq<Seq<StepV>>,
    j: int,
    target: Seq<char>,
    changed: bool,
) -> Result<(DocView, bool), MutErrV>
    decreases paths.len() - j,
{
    if j < 0 || j >= paths.len() {
        Ok((d, changed))
    } else {
        match doc_at(d, paths[j]) {
            None => Err(MutErrV::Internal),
            Some(leaf) => match leaf {
                DocView::Str(s) => if s == target {
                    apply_paths(d, paths, j + 1, target, changed)
                } else {
                    apply_paths(doc_set(d, paths[j], target), paths, j + 1, target, true)
                },
                _ => Err(MutErrV::NonString),
            },
        }
    }
}

/// Model of applying the selectors from `k` on. Resolution runs against the
/// current document when `on_current` holds (the JSON pipeline) and against
/// the pristine parse `d0` otherwise (the TOML pipeline).
pub open spec fn apply_sels(
    d0: DocView,
    d: DocView,
    sels: Seq<Seq<SegV>>,
    k: int,
    target: Seq<char>,
    changed: bool,
    on_current: bool,
) -> Result<(DocView, bool), (int, FErrV)>
    decreases sels.len() - k,
{
    if k < 0 || k >= sels.len() {
        Ok((d, changed))
    } else {
        let base = if on_current {
            d
        } else {
            d0
        };
        match spec_resolve(base, sels[k]) {
            Err(e) => Err((k, FErrV::Res(e))),
            Ok(paths) => match apply_paths(d, paths, 0, target, changed) {
                Err(m) => Err((k, FErrV::Mutate(m))),
                Ok(p) => apply_sels(d0, p.0, sels, k + 1, target, p.1, on_current),
            },
        }
    }
}

/// Model of one file-content update: selectors are parsed first, then the
/// document, then every selector is resolved and applied in order.
pub open spec fn spec_update_content(
    fmt: VersionFileFormat,
    content: Seq<char>,
    sels: Seq<Seq<char>>,
    target: Seq<char>,
) -> Result<(DocView, bool), ContentErrV> {
    match parse_all(sels, 0) {
        Err(p) => Err(ContentErrV::Syntax(p.0, p.1)),
        Ok(parsed) => {
            let doc0 = if fmt is Json {
                json_doc_of(content)
            } else {
                toml_doc_of(content)
            };
            match doc0 {
                None => Err(ContentErrV::Parse),
                Some(d0) => match apply_sels(d0, d0, parsed, 0, target, false, fmt is Json) {
                    Err(p) => Err(ContentErrV::Apply(p.0, p.1)),
                    Ok(p) => Ok(p),
                },
            }
        },
    }
}

/// The update error a content error denotes, with file and selector context.
pub open spec fn uerr_of(
    path: Seq<char>,
    fmt: VersionFileFormat,
    sels: Seq<Seq<char>>,
    ce: ContentErrV,
) -> UErrV {
    match ce {
        ContentErrV::Syntax(k, e) => UErrV::SelectorSyntax(path, trim_spec(sels[k]), e),
        ContentErrV::Parse => UErrV::DocumentParse(path, fmt),
        ContentErrV::Apply(k, f) => match f {
            FErrV::Res(RErrV::NoMatch) => UErrV::SelectorNoMatch(path, trim_spec(sels[k])),
            FErrV::Res(re) => UErrV::SelectorTypeMismatch(path, trim_spec(sels[k]), re),
            FErrV::Mutate(MutErrV::NonString) => UErrV::NonStringTarget(path, trim_spec(sels[k])),
            FErrV::Mutate(MutErrV::Internal) => UErrV::InternalInvariantViolation(
                path,
                trim_spec(sels[k]),
            ),
        },
    }
}

/// What a leaf check finds at a resolved path.
#[derive(Debug, Clone, Copy, PartialEq, Eq, Structural)]
pub enum LeafState {
    Missing,
    NotString,
    Equal,
    Differs,
}

/// Classifies the node a resolved path denotes against the target string.
fn leaf_state(root: &DocNode, path: &Vec<PathStep>, target: &str) -> (r: LeafState)
    ensures
        ({
            let at = doc_at(root@, path_view(path@));
            match r {
                LeafState::Missing => at is None,
                LeafState::NotString => at matches Some(l) && !(l is Str),
                LeafState::Equal => at matches Some(l) && l matches DocView::Str(s) && s == target@,
                LeafState::Differs => at matches Some(l) && l matches DocView::Str(s) && s
                    != target@,
            }
        }),
{
    match node_at(root, path) {
        None => LeafState::Missing,
        Some(n) => match n {
            DocNode::Str(s) => if str_eq(s.as_str(), target) {
                LeafState::Equal
            } else {
                LeafState::Differs
            },
            _ => LeafState::NotString,
        },
    }
}

/// Parses every configured selector, trimmed, in order; the first syntax
/// error aborts with that selector's text.
fn parse_selectors(path: &str, selectors: &Vec<String>) -> (r: Result<
    (Vec<String>, Vec<VersionSelector>),
    UpdateError,
>)
    ensures
        match r {
            Ok(p) => parse_all(sels_view(selectors@), 0) matches Ok(parsed) && parsed
                == p.1@.map_values(|s: VersionSelector| s@) && p.0@.len() == p.1@.len() && p.1@.len()
                == selectors@.len() && (forall|i: int|
                0 <= i < p.0@.len() ==> p.0@[i]@ == trim_spec(sels_view(selectors@)[i])),
            Err(e) => parse_all(sels_view(selectors@), 0) matches Err(q) && e@
                == UErrV::SelectorSyntax(path@, trim_spec(sels_view(selectors@)[q.0]), q.1),
        },
{
    let ghost sv = sels_view(selectors@);
    let mut texts: Vec<String> = Vec::new();
    let mut parsed: Vec<VersionSelector> = Vec::new();
    let mut k: usize = 0;
    while k < selectors.len()
        invariant
            0 <= k <= selectors@.len(),
            sv == sels_view(selectors@),
            texts@.len() == k,
            parsed@.len() == k,
            forall|i: int| 0 <= i < k ==> texts@[i]@ == trim_spec(sv[i]),
            ({
                let full = parse_all(sv, 0);
                match parse_all(sv, k as int) {
                    Ok(rest) => full == Ok::<Seq<Seq<SegV>>, (int, SelectorError)>(
                        parsed@.map_values(|s: VersionSelector| s@) + rest,
                    ),
                    Err(p) => full == Err::<Seq<Seq<SegV>>, (int, SelectorError)>(p),
                }
            }),
        decreases selectors@.len() - k,
    {
        proof {
            assert(sv[k as int] == selectors@[k as int]@);
        }
        let t = trim_str(selectors[k].as_str());
        let ghost parsed0 = parsed@.map_values(|s: VersionSelector| s@);
        match parse_selector(t) {
            Err(e) => {
                return Err(
                    UpdateError::SelectorSyntax {
                        path: path.to_owned(),
                        selector: t.to_owned(),
                        reason: e,
                    },
                );
            },
            Ok(sel) => {
                texts.push(t.to_owned());
                parsed.push(sel);
                proof {
                    let ghost selg = parsed@[k as int];
                    assert(parsed@.map_values(|s: VersionSelector| s@) =~= parsed0 + seq![selg@]);
                    match parse_all(sv, k as int + 1) {
                        Ok(rest) => {
                            assert(parsed0 + (seq![selg@] + rest) =~= (parsed0 + seq![selg@])
                                + rest);
                        },
                        Err(_) => {},
                    }
                }
            },
        }
        k = k + 1;
    }
    proof {
        assert(parsed@.map_values(|s: VersionSelector| s@) + Seq::<Seq<SegV>>::empty()
            =~= parsed@.map_values(|s: VersionSelector| s@));
    }
    Ok((texts, parsed))
}

/// Applies every parsed selector to a JSON document: resolution runs against
/// the current (possibly already rewritten) tree, and every change is made
/// both to the opaque value and to its model tree.
fn update_json_value(
    path: &str,
    texts: &Vec<String>,
    parsed: &Vec<VersionSelector>,
    value: &mut serde_json::Value,
    tree0: DocNode,
    target: &str,
) -> (r: Result<bool, UpdateError>)
    requires
        tree0@ == json_view(*old(value)),
        parsed@.len() == texts@.len(),
    ensures
        ({
            let sels = parsed@.map_values(|s: VersionSelector| s@);
            let d0 = json_view(*old(value));
            match r {
                Ok(changed) => apply_sels(d0, d0, sels, 0, target@, false, true) == Ok::<
                    (DocView, bool),
                    (int, FErrV),
                >((json_view(*final(value)), changed)),
                Err(e) => apply_sels(d0, d0, sels, 0, target@, false, true) matches Err(p)
                    && e@ == uerr_of_apply(path@, texts@[p.0]@, p.1),
            }
        }),
{
    let ghost sels = parsed@.map_values(|s: VersionSelector| s@);
    let ghost d0 = json_view(*value);
    let mut tree = tree0;
    let mut changed = false;
    let mut k: usize = 0;
    while k < parsed.len()
        invariant
            0 <= k <= parsed@.len(),
            parsed@.len() == texts@.len(),
            sels == parsed@.map_values(|s: VersionSelector| s@),
            d0 == json_view(*old(value)),
            tree@ == json_view(*value),
            apply_sels(d0, tree@, sels, k as int, target@, changed, true) == apply_sels(
                d0,
                d0,
                sels,
                0,
                target@,
                false,
                true,
            ),
        decreases parsed@.len() - k,
    {
        proof {
            assert(sels[k as int] == parsed@[k as int]@);
        }
        let paths = match resolve_selector(&tree, &parsed[k]) {
            Err(e) => {
                return Err(resolve_error_to_update(path, &texts[k], e));
            },
            Ok(paths) => paths,
        };
        let ghost dk = tree@;
        let ghost chk = changed;
        let ghost pv = paths_view(paths@);
        let mut j: usize = 0;
        while j < paths.len()
            invariant
                0 <= j <= paths@.len(),
                0 <= k < parsed@.len(),
                parsed@.len() == texts@.len(),
                sels == parsed@.map_values(|s: VersionSelector| s@),
                sels[k as int] == parsed@[k as int]@,
                d0 == json_view(*old(value)),
                pv == paths_view(paths@),
                tree@ == json_view(*value),
                spec_resolve(dk, sels[k as int]) == Ok::<Seq<Seq<StepV>>, RErrV>(pv),
                apply_sels(d0, dk, sels, k as int, target@, chk, true) == apply_sels(
                    d0,
                    d0,
                    sels,
                    0,
                    target@,
                    false,
                    true,
                ),
                apply_paths(tree@, pv, j as int, target@, changed) == apply_paths(
                    dk,
                    pv,
                    0,
                    target@,
                    chk,
                ),
            decreases paths@.len() - j,
        {
            proof {
                assert(pv[j as int] == path_view(paths@[j as int]@));
            }
            match leaf_state(&tree, &paths[j], target) {
                LeafState::Missing => {
                    return Err(
                        UpdateError::InternalInvariantViolation {
                            path: path.to_owned(),
                            selector: texts[k].clone(),
                        },
                    );
                },
                LeafState::NotString => {
                    return Err(
                        UpdateError::NonStringTarget {
                            path: path.to_owned(),
                            selector: texts[k].clone(),
                        },
                    );
                },
                LeafState::Equal => {},
                LeafState::Differs => {
                    json_set_str(value, &paths[j], target);
                    match crate::doc::node_with_set(tree, &paths[j], 0, target) {
                        Some(t2) => {
                            proof {
                                assert(path_view(paths@[j as int]@).subrange(
                                    0,
                                    path_view(paths@[j as int]@).len() as int,
                                ) =~= path_view(paths@[j as int]@));
                            }
                            tree = t2;
                        },
                        None => {
                            proof {
                                assert(path_view(paths@[j as int]@).subrange(
                                    0,
                                    path_view(paths@[j as int]@).len() as int,
                                ) =~= path_view(paths@[j as int]@));
                                assert(false);
                            }
                            return Err(
                                UpdateError::InternalInvariantViolation {
                                    path: path.to_owned(),
                                    selector: texts[k].clone(),
                                },
                            );
                        },
                    }
                    changed = true;
                },
            }
            j = j + 1;
        }
        k = k + 1;
    }
    Ok(changed)
}

/// A selector-application error always names a selector in range.
proof fn lemma_apply_sels_err_range(
    d0: DocView,
    d: DocView,
    sels: Seq<Seq<SegV>>,
    k: int,
    target: Seq<char>,
    changed: bool,
    on_current: bool,
)
    requires
        0 <= k,
        apply_sels(d0, d, sels, k, target, changed, on_current) is Err,
    ensures
        ({
            let p = apply_sels(d0, d, sels, k, target, changed, on_current)->Err_0;
            k <= p.0 < sels.len()
        }),
    decreases sels.len() - k,
{
    if k >= sels.len() {
    } else {
        let base = if on_current {
            d
        } else {
            d0
        };
        match spec_resolve(base, sels[k]) {
            Err(_) => {},
            Ok(paths) => match apply_paths(d, paths, 0, target, changed) {
                Err(_) => {},
                Ok(p) => {
                    lemma_apply_sels_err_range(d0, p.0, sels, k + 1, target, p.1, on_current);
                },
            },
        }
    }
}

/// The update error one selector's resolution or mutation failure denotes.
pub open spec fn uerr_of_apply(path: Seq<char>, selector: Seq<char>, f: FErrV) -> UErrV {
    match f {
        FErrV::Res(RErrV::NoMatch) => UErrV::SelectorNoMatch(path, selector),
        FErrV::Res(re) => UErrV::SelectorTypeMismatch(path, selector, re),
        FErrV::Mutate(MutErrV::NonString) => UErrV::NonStringTarget(path, selector),
        FErrV::Mutate(MutErrV::Internal) => UErrV::InternalInvariantViolation(path, selector),
    }
}

/// Wraps a resolution failure with file and selector context.
fn resolve_error_to_update(path: &str, selector: &String, e: ResolveError) -> (r: UpdateError)
    ensures
        r@ == uerr_of_apply(path@, selector@, FErrV::Res(e@)),
{
    match e {
        ResolveError::NoMatch => UpdateError::SelectorNoMatch {
            path: path.to_owned(),
            selector: selector.clone(),
        },
        other => UpdateError::SelectorTypeMismatch {
            path: path.to_owned(),
            selector: selector.clone(),
            reason: other,
        },
    }
}

/// Applies every parsed selector to a format-preserving TOML document:
/// resolution runs against the pristine parse, and every change is made both
/// to the document and to its model tree.
/// The document view and text after writing the target over the leaves at
/// `paths[j..]`, in order: a leaf already equal to the target is left alone,
/// any other string leaf is overwritten in the view (`doc_set`) and in the
/// text (`toml_set_text_of`). Paths that do not lead to a string leaf stop a
/// run with an error, so their fold value is never used.
pub open spec fn apply_paths_tx(
    d: DocView,
    tx: Seq<char>,
    paths: Seq<Seq<StepV>>,
    j: int,
    target: Seq<char>,
) -> (DocView, Seq<char>)
    decreases paths.len() - j,
{
    if j < 0 || j >= paths.len() {
        (d, tx)
    } else {
        match doc_at(d, paths[j]) {
            Some(DocView::Str(s)) => if s == target {
                apply_paths_tx(d, tx, paths, j + 1, target)
            } else {
                apply_paths_tx(
                    doc_set(d, paths[j], target),
                    toml_set_text_of(tx, paths[j], target),
                    paths,
                    j + 1,
                    target,
                )
            },
            _ => (d, tx),
        }
    }
}

/// The document view and text after applying the selectors from `k` on to a
/// format-preserving document; resolution runs against the pristine parse.
pub open spec fn apply_sels_tx(
    d0: DocView,
    d: DocView,
    tx: Seq<char>,
    sels: Seq<Seq<SegV>>,
    k: int,
    target: Seq<char>,
) -> (DocView, Seq<char>)
    decreases sels.len() - k,
{
    if k < 0 || k >= sels.len() {
        (d, tx)
    } else {
        match spec_resolve(d0, sels[k]) {
            Err(_) => (d, tx),
            Ok(paths) => {
                let p = apply_paths_tx(d, tx, paths, 0, target);
                apply_sels_tx(d0, p.0, p.1, sels, k + 1, target)
            },
        }
    }
}

fn update_toml_doc(
    path: &str,
    texts: &Vec<String>,
    parsed: &Vec<VersionSelector>,
    doc: &mut toml_edit::DocumentMut,
    base: DocNode,
    tree0: DocNode,
    target: &str,
) -> (r: Result<bool, UpdateError>)
    requires
        base@ == toml_shape(*old(doc)),
        tree0@ == toml_shape(*old(doc)),
        parsed@.len() == texts@.len(),
    ensures
        ({
            let sels = parsed@.map_values(|s: VersionSelector| s@);
            let d0 = toml_shape(*old(doc));
            match r {
                Ok(changed) => apply_sels(d0, d0, sels, 0, target@, false, false) == Ok::<
                    (DocView, bool),
                    (int, FErrV),
                >((toml_shape(*final(doc)), changed)) && toml_text(*final(doc)) == apply_sels_tx(
                    d0,
                    d0,
                    toml_text(*old(doc)),
                    sels,
                    0,
                    target@,
                ).1,
                Err(e) => apply_sels(d0, d0, sels, 0, target@, false, false) matches Err(p)
                    && e@ == uerr_of_apply(path@, texts@[p.0]@, p.1),
            }
        }),
{
    let ghost sels = parsed@.map_values(|s: VersionSelector| s@);
    let ghost d0 = toml_shape(*doc);
    let ghost tx0 = toml_text(*doc);
    let mut tree = tree0;
    let mut changed = false;
    let mut k: usize = 0;
    while k < parsed.len()
        invariant
            0 <= k <= parsed@.len(),
            parsed@.len() == texts@.len(),
            sels == parsed@.map_values(|s: VersionSelector| s@),
            d0 == toml_shape(*old(doc)),
            tx0 == toml_text(*old(doc)),
            base@ == d0,
            tree@ == toml_shape(*doc),
            apply_sels(d0, tree@, sels, k as int, target@, changed, false) == apply_sels(
                d0,
                d0,
                sels,
                0,
                target@,
                false,
                false,
            ),
            apply_sels_tx(d0, tree@, toml_text(*doc), sels, k as int, target@) == apply_sels_tx(
                d0,
                d0,
                tx0,
                sels,
                0,
                target@,
            ),
        decreases parsed@.len() - k,
    {
        proof {
            assert(sels[k as int] == parsed@[k as int]@);
        }
        let paths = match resolve_selector(&base, &parsed[k]) {
            Err(e) => {
                return Err(resolve_error_to_update(path, &texts[k], e));
            },
            Ok(paths) => paths,
        };
        let ghost dk = tree@;
        let ghost chk = changed;
        let ghost txk = toml_text(*doc);
        let ghost pv = paths_view(paths@);
        let mut j: usize = 0;
        while j < paths.len()
            invariant
                0 <= j <= paths@.len(),
                0 <= k < parsed@.len(),
                parsed@.len() == texts@.len(),
                sels == parsed@.map_values(|s: VersionSelector| s@),
                sels[k as int] == parsed@[k as int]@,
                d0 == toml_shape(*old(doc)),
                tx0 == toml_text(*old(doc)),
                pv == paths_view(paths@),
                tree@ == toml_shape(*doc),
                spec_resolve(d0, sels[k as int]) == Ok::<Seq<Seq<StepV>>, RErrV>(pv),
                apply_sels(d0, dk, sels, k as int, target@, chk, false) == apply_sels(
                    d0,
                    d0,
                    sels,
                    0,
                    target@,
                    false,
                    false,
                ),
                apply_sels_tx(d0, dk, txk, sels, k as int, target@) == apply_sels_tx(
                    d0,
                    d0,
                    tx0,
                    sels,
                    0,
                    target@,
                ),
                apply_paths(tree@, pv, j as int, target@, changed) == apply_paths(
                    dk,
                    pv,
                    0,
                    target@,
                    chk,
                ),
                apply_paths_tx(tree@, toml_text(*doc), pv, j as int, target@) == apply_paths_tx(
                    dk,
                    txk,
                    pv,
                    0,
                    target@,
                ),
            decreases paths@.len() - j,
        {
            proof {
                assert(pv[j as int] == path_view(paths@[j as int]@));
            }
            match leaf_state(&tree, &paths[j], target) {
                LeafState::Missing => {
                    return Err(
                        UpdateError::InternalInvariantViolation {
                            path: path.to_owned(),
                            selector: texts[k].clone(),
                        },
                    );
                },
                LeafState::NotString => {
                    return Err(
                        UpdateError::NonStringTarget {
                            path: path.to_owned(),
                            selector: texts[k].clone(),
                        },
                    );
                },
                LeafState::Equal => {},
                LeafState::Differs => {
                    toml_set_str(doc, &paths[j], target);
                    match crate::doc::node_with_set(tree, &paths[j], 0, target) {
                        Some(t2) => {
                            proof {
                                assert(path_view(paths@[j as int]@).subrange(
                                    0,
                                    path_view(paths@[j as int]@).len() as int,
                                ) =~= path_view(paths@[j as int]@));
                            }
                            tree = t2;
                        },
                        None => {
                            proof {
                                assert(path_view(paths@[j as int]@).subrange(
                                    0,
                                    path_view(paths@[j as int]@).len() as int,
                                ) =~= path_view(paths@[j as int]@));
                                assert(false);
                            }
                            return Err(
                                UpdateError::InternalInvariantViolation {
                                    path: path.to_owned(),
                                    selector: texts[k].clone(),
                                },
                            );
                        },
                    }
                    changed = true;
                },
            }
            j = j + 1;
        }
        k = k + 1;
    }
    Ok(changed)
}

/// The text a changed JSON file is rewritten with: the canonical pretty
/// serialization of a value whose tree is the final document view, plus one
/// trailing newline. The view carries every scalar's text, so it determines
/// the serialization.
pub open spec fn spec_json_output_ok(
    content: Seq<char>,
    sels: Seq<Seq<char>>,
    target: Seq<char>,
    out: Seq<char>,
) -> bool {
    match spec_update_content(VersionFileFormat::Json, content, sels, target) {
        Ok(p) => exists|v: serde_json::Value|
            #[trigger] json_view(v) == p.0 && out == json_pretty_of(v) + "\n"@,
        Err(_) => false,
    }
}

/// The text a changed TOML file is rewritten with: the parsed document's
/// text with exactly the written scalar tokens rewritten, in resolution
/// order, gaining a trailing newline only if missing.
pub open spec fn spec_toml_output_text(
    content: Seq<char>,
    sels: Seq<Seq<char>>,
    target: Seq<char>,
) -> Seq<char> {
    match parse_all(sels, 0) {
        Ok(parsed) => match toml_doc_of(content) {
            Some(d0) => {
                let tx = apply_sels_tx(d0, d0, toml_parse_text_of(content), parsed, 0, target).1;
                if tx.len() > 0 && tx.last() == '\n' {
                    tx
                } else {
                    tx + "\n"@
                }
            },
            None => Seq::empty(),
        },
        Err(_) => Seq::empty(),
    }
}

/// The text a changed file of either format is rewritten with.
pub open spec fn spec_output_ok(
    format: VersionFileFormat,
    content: Seq<char>,
    sels: Seq<Seq<char>>,
    target: Seq<char>,
    out: Seq<char>,
) -> bool {
    match format {
        VersionFileFormat::Json => spec_json_output_ok(content, sels, target, out),
        VersionFileFormat::Toml => out == spec_toml_output_text(content, sels, target),
    }
}

/// Rewrites one JSON file's text: `Some` holds the canonical pretty
/// serialization with one trailing newline exactly when some leaf changed.
pub fn update_json_content(path: &str, selectors: &Vec<String>, content: &str, target: &str) -> (r:
    Result<Option<String>, UpdateError>)
    ensures
        ({
            let m = spec_update_content(
                VersionFileFormat::Json,
                content@,
                sels_view(selectors@),
                target@,
            );
            match r {
                Ok(out) => m matches Ok(p) && (p.1 <==> out is Some) && (match out {
                    Some(s) => spec_json_output_ok(
                        content@,
                        sels_view(selectors@),
                        target@,
                        s@,
                    ),
                    None => true,
                }),
                Err(e) => m matches Err(ce) && e@ == uerr_of(
                    path@,
                    VersionFileFormat::Json,
                    sels_view(selectors@),
                    ce,
                ),
            }
        }),
{
    let (texts, parsed) = match parse_selectors(path, selectors) {
        Err(e) => {
            return Err(e);
        },
        Ok(p) => p,
    };
    let mut value = match json_parse(content) {
        None => {
            return Err(
                UpdateError::DocumentParse {
                    path: path.to_owned(),
                    format: VersionFileFormat::Json,
                },
            );
        },
        Some(v) => v,
    };
    let tree = json_to_node(&value);
    let ghost d0 = json_view(value);
    let ghost sels = parsed@.map_values(|s: VersionSelector| s@);
    match update_json_value(path, &texts, &parsed, &mut value, tree, target) {
        Err(e) => {
            proof {
                lemma_apply_sels_err_range(d0, d0, sels, 0, target@, false, true);
            }
            Err(e)
        },
        Ok(changed) => {
            if changed {
                let mut out = json_to_pretty(&value);
                out.append("\n");
                proof {
                    assert(out@ == json_pretty_of(value) + "\n"@);
                }
                Ok(Some(out))
            } else {
                Ok(None)
            }
        },
    }
}

/// Rewrites one TOML file's text: `Some` holds the document's text with all
/// untouched syntax preserved, gaining a trailing newline only if missing,
/// exactly when some leaf changed.
pub fn update_toml_content(path: &str, selectors: &Vec<String>, content: &str, target: &str) -> (r:
    Result<Option<String>, UpdateError>)
    ensures
        ({
            let m = spec_update_content(
                VersionFileFormat::Toml,
                content@,
                sels_view(selectors@),
                target@,
            );
            match r {
                Ok(out) => m matches Ok(p) && (p.1 <==> out is Some) && (match out {
                    Some(s) => s@ == spec_toml_output_text(
                        content@,
                        sels_view(selectors@),
                        target@,
                    ),
                    None => true,
                }),
                Err(e) => m matches Err(ce) && e@ == uerr_of(
                    path@,
                    VersionFileFormat::Toml,
                    sels_view(selectors@),
                    ce,
                ),
            }
        }),
{
    let (texts, parsed) = match parse_selectors(path, selectors) {
        Err(e) => {
            return Err(e);
        },
        Ok(p) => p,
    };
    let mut doc = match toml_parse(content) {
        None => {
            return Err(
                UpdateError::DocumentParse {
                    path: path.to_owned(),
                    format: VersionFileFormat::Toml,
                },
            );
        },
        Some(d) => d,
    };
    let base = toml_doc_to_node(&doc);
    let tree = toml_doc_to_node(&doc);
    let ghost d0 = toml_shape(doc);
    let ghost sels = parsed@.map_values(|s: VersionSelector| s@);
    match update_toml_doc(path, &texts, &parsed, &mut doc, base, tree, target) {
        Err(e) => {
            proof {
                lemma_apply_sels_err_range(d0, d0, sels, 0, target@, false, false);
            }
            Err(e)
        },
        Ok(changed) => {
            if changed {
                let mut out = toml_doc_text(&doc);
                let n = out.as_str().unicode_len();
                if n == 0 || out.as_str().get_char(n - 1) != '\n' {
                    out.append("\n");
                    proof {
                        assert(out@ == toml_text(doc) + "\n"@);
                    }
                } else {
                    proof {
                        assert(out@ == toml_text(doc));
                    }
                }
                Ok(Some(out))
            } else {
                Ok(None)
            }
        },
    }
}

/// The format a path's extension denotes, unless an override names one:
/// the text after the last dot of the file name, compared without regard to
/// ASCII case; a name without a dot, or with only a leading dot, has none.
pub open spec fn spec_detect(path: Seq<char>, over: Option<VersionFileFormat>) -> Option<
    VersionFileFormat,
> {
    match over {
        Some(f) => Some(f),
        None => {
            let slash = rfind_char_spec(path, '/');
            let dot = rfind_char_spec(path, '.');
            if dot > slash + 1 {
                let ext = path.subrange(dot + 1, path.len() as int);
                if eq_ignore_ascii_case(ext, "json"@) {
                    Some(VersionFileFormat::Json)
                } else if eq_ignore_ascii_case(ext, "toml"@) {
                    Some(VersionFileFormat::Toml)
                } else {
                    None
                }
            } else {
                None
            }
        },
    }
}

/// Infers a file's format from its extension or configured override.
pub fn detect_file_format(path: &str, over: Option<VersionFileFormat>) -> (r: Option<
    VersionFileFormat,
>)
    ensures
        r == spec_detect(path@, over),
{
    match over {
        Some(f) => Some(f),
        None => {
            proof {
                crate::textutil::lemma_rfind_char_bounds(path@, '/');
                crate::textutil::lemma_rfind_char_bounds(path@, '.');
            }
            let n = path.unicode_len();
            let dot = match rfind_char(path, '.') {
                None => {
                    return None;
                },
                Some(d) => d,
            };
            let name_start: usize = match rfind_char(path, '/') {
                None => 0,
                Some(s) => s + 1,
            };
            if dot < name_start || dot == name_start {
                return None;
            }
            let ext = path.substring_char(dot + 1, n);
            if crate::textutil::str_eq_ignore_ascii_case(ext, "json") {
                Some(VersionFileFormat::Json)
            } else if crate::textutil::str_eq_ignore_ascii_case(ext, "toml") {
                Some(VersionFileFormat::Toml)
            } else {
                None
            }
        },
    }
}

/// Rewrites one file's text in the named format; `Some` exactly when a leaf
/// changed, and then it holds the new text to write.
pub fn update_file_content(
    path: &str,
    format: VersionFileFormat,
    selectors: &Vec<String>,
    content: &str,
    target: &str,
) -> (r: Result<Option<String>, UpdateError>)
    ensures
        ({
            let m = spec_update_content(format, content@, sels_view(selectors@), target@);
            match r {
                Ok(out) => m matches Ok(p) && (p.1 <==> out is Some) && (match out {
                    Some(s) => spec_output_ok(
                        format,
                        content@,
                        sels_view(selectors@),
                        target@,
                        s@,
                    ),
                    None => true,
                }),
                Err(e) => m matches Err(ce) && e@ == uerr_of(
                    path@,
                    format,
                    sels_view(selectors@),
                    ce,
                ),
            }
        }),
{
    match format {
        VersionFileFormat::Json => update_json_content(path, selectors, content, target),
        VersionFileFormat::Toml => update_toml_content(path, selectors, content, target),
    }
}

/// One configured file of a run: its repository-relative path, its selectors
/// in order, its optional format override, and its current text (`None` when
/// the file does not exist).
#[derive(Debug, Clone, PartialEq, Eq)]
pub struct FileUpdate {
    pub path: String,
    pub selectors: Vec<String>,
    pub format_override: Option<VersionFileFormat>,
    pub content: Option<String>,
}

/// What processing one configured file yields: the final document view and
/// whether it changed, or the error that aborts the run.
pub open spec fn file_outcome(target: Seq<char>, f: FileUpdate) -> Result<(DocView, bool), UErrV> {
    match f.content {
        None => Err(UErrV::FileNotFound(f.path@)),
        Some(c) => match spec_detect(f.path@, f.format_override) {
            None => Err(UErrV::FormatUndetected(f.path@)),
            Some(fmt) => match spec_update_content(fmt, c@, sels_view(f.selectors@), target) {
                Err(ce) => Err(uerr_of(f.path@, fmt, sels_view(f.selectors@), ce)),
                Ok(p) => Ok(p),
            },
        },
    }
}

/// The text one configured file is rewritten with when its outcome is a
/// change.
pub open spec fn file_output_ok(target: Seq<char>, f: FileUpdate, out: Seq<char>) -> bool {
    match f.content {
        None => false,
        Some(c) => match spec_detect(f.path@, f.format_override) {
            None => false,
            Some(fmt) => spec_output_ok(fmt, c@, sels_view(f.selectors@), target, out),
        },
    }
}

/// Index of the first file whose outcome is an error, or the length.
pub open spec fn first_bad(target: Seq<char>, files: Seq<FileUpdate>, i: int) -> int
    decreases files.len() - i,
{
    if i < 0 || i >= files.len() {
        files.len() as int
    } else if file_outcome(target, files[i]) is Err {
        i
    } else {
        first_bad(target, files, i + 1)
    }
}

/// The paths of the files in `[i, end)` whose outcome is a change.
pub open spec fn spec_written(target: Seq<char>, files: Seq<FileUpdate>, i: int, end: int) -> Seq<
    Seq<char>,
>
    decreases end - i,
{
    if i < 0 || i >= end || i >= files.len() {
        Seq::empty()
    } else {
        let head: Seq<Seq<char>> = match file_outcome(target, files[i]) {
            Ok(p) => if p.1 {
                seq![files[i].path@]
            } else {
                Seq::empty()
            },
            Err(_) => Seq::empty(),
        };
        head + spec_written(target, files, i + 1, end)
    }
}

proof fn lemma_spec_written_snoc(target: Seq<char>, files: Seq<FileUpdate>, i: int, end: int)
    requires
        0 <= i <= end < files.len(),
    ensures
        spec_written(target, files, i, end + 1) == spec_written(target, files, i, end) + (
        match file_outcome(target, files[end]) {
            Ok(p) => if p.1 {
                seq![files[end].path@]
            } else {
                Seq::<Seq<char>>::empty()
            },
            Err(_) => Seq::<Seq<char>>::empty(),
        }),
    decreases end - i,
{
    let tail = match file_outcome(target, files[end]) {
        Ok(p) => if p.1 {
            seq![files[end].path@]
        } else {
            Seq::<Seq<char>>::empty()
        },
        Err(_) => Seq::<Seq<char>>::empty(),
    };
    if i == end {
        assert(spec_written(target, files, end + 1, end + 1) =~= Seq::<Seq<char>>::empty());
        assert(spec_written(target, files, i, end) =~= Seq::<Seq<char>>::empty());
        assert(tail + Seq::<Seq<char>>::empty() =~= tail);
        assert(Seq::<Seq<char>>::empty() + tail =~= tail);
    } else {
        lemma_spec_written_snoc(target, files, i + 1, end);
        let head: Seq<Seq<char>> = match file_outcome(target, files[i]) {
            Ok(p) => if p.1 {
                seq![files[i].path@]
            } else {
                Seq::empty()
            },
            Err(_) => Seq::empty(),
        };
        assert(head + (spec_written(target, files, i + 1, end) + tail) =~= (head + spec_written(
            target,
            files,
            i + 1,
            end,
        )) + tail);
    }
}

/// Applies the target version to every configured file, in the given
/// ascending path order. Returns the writes performed (path and new text, in
/// order) and either the report of changed files or the first error. The
/// first error stops the run at once: files before it keep their writes,
/// files after it are untouched.
pub fn apply_version_updates(target: &str, files: &Vec<FileUpdate>) -> (r: (
    Vec<(String, String)>,
    Result<UpdateReport, UpdateError>,
))
    requires
        forall|i: int, j: int|
            0 <= i < j < files@.len() ==> chars_lt(files@[i].path@, files@[j].path@),
    ensures
        r.0@.map_values(|w: (String, String)| w.0@) == spec_written(
            target@,
            files@,
            0,
            first_bad(target@, files@, 0),
        ),
        forall|t: int|
            0 <= t < r.0@.len() ==> exists|i: int|
                0 <= i < files@.len() && (#[trigger] files@[i]).path@ == (#[trigger] r.0@[t]).0@
                    && file_output_ok(target@, files@[i], r.0@[t].1@),
        match r.1 {
            Ok(report) => first_bad(target@, files@, 0) == files@.len()
                && report.changed_files@.map_values(|p: String| p@) == spec_written(
                target@,
                files@,
                0,
                files@.len() as int,
            ),
            Err(e) => first_bad(target@, files@, 0) < files@.len() && file_outcome(
                target@,
                files@[first_bad(target@, files@, 0)],
            ) == Err::<(DocView, bool), UErrV>(e@),
        },
{
    let mut writes: Vec<(String, String)> = Vec::new();
    let mut changed_files: Vec<String> = Vec::new();
    let mut i: usize = 0;
    while i < files.len()
        invariant
            0 <= i <= files@.len(),
            forall|j: int| 0 <= j < i ==> file_outcome(target@, files@[j]) is Ok,
            first_bad(target@, files@, 0) == first_bad(target@, files@, i as int),
            writes@.map_values(|w: (String, String)| w.0@) == spec_written(
                target@,
                files@,
                0,
                i as int,
            ),
            changed_files@.map_values(|p: String| p@) == spec_written(
                target@,
                files@,
                0,
                i as int,
            ),
            forall|t: int|
                0 <= t < writes@.len() ==> exists|u: int|
                    0 <= u < files@.len() && (#[trigger] files@[u]).path@ == (
                    #[trigger] writes@[t]).0@ && file_output_ok(target@, files@[u], writes@[t].1@),
        decreases files@.len() - i,
    {
        let f = &files[i];
        let content = match &f.content {
            None => {
                let e = UpdateError::FileNotFound { path: f.path.clone() };
                proof {
                    assert(file_outcome(target@, files@[i as int]) == Err::<
                        (DocView, bool),
                        UErrV,
                    >(e@));
                }
                return (writes, Err(e));
            },
            Some(c) => c,
        };
        let format = match detect_file_format(f.path.as_str(), f.format_override) {
            None => {
                let e = UpdateError::FormatUndetected { path: f.path.clone() };
                proof {
                    assert(file_outcome(target@, files@[i as int]) == Err::<
                        (DocView, bool),
                        UErrV,
                    >(e@));
                }
                return (writes, Err(e));
            },
            Some(fmt) => fmt,
        };
        let ghost writes0 = writes@.map_values(|w: (String, String)| w.0@);
        match update_file_content(
            f.path.as_str(),
            format,
            &f.selectors,
            content.as_str(),
            target,
        ) {
            Err(e) => {
                return (writes, Err(e));
            },
            Ok(None) => {
                proof {
                    lemma_spec_written_snoc(target@, files@, 0, i as int);
                    assert(writes@.map_values(|w: (String, String)| w.0@) =~= spec_written(
                        target@,
                        files@,
                        0,
                        i as int + 1,
                    ));
                    assert(changed_files@.map_values(|p: String| p@) =~= spec_written(
                        target@,
                        files@,
                        0,
                        i as int + 1,
                    ));
                }
            },
            Ok(Some(out)) => {
                let ghost out_g = out@;
                let ghost writes_pre = writes@;
                writes.push((f.path.clone(), out));
                changed_files.push(f.path.clone());
                proof {
                    assert(file_output_ok(target@, files@[i as int], out_g));
                    assert forall|t: int| 0 <= t < writes@.len() implies exists|u: int|
                        0 <= u < files@.len() && (#[trigger] files@[u]).path@ == (
                        #[trigger] writes@[t]).0@ && file_output_ok(
                        target@,
                        files@[u],
                        writes@[t].1@,
                    ) by {
                        if t < writes_pre.len() {
                            assert(writes@[t] == writes_pre[t]);
                        } else {
                            assert(writes@[t].0@ == files@[i as int].path@);
                            assert(writes@[t].1@ == out_g);
                            assert((files@[i as int]).path@ == writes@[t].0@ && file_output_ok(
                                target@,
                                files@[i as int],
                                writes@[t].1@,
                            ));
                        }
                    }
                    lemma_spec_written_snoc(target@, files@, 0, i as int);
                    assert(writes@.map_values(|w: (String, String)| w.0@) =~= writes0 + seq![
                        files@[i as int].path@,
                    ]);
                    assert(changed_files@.map_values(|p: String| p@) =~= writes0 + seq![
                        files@[i as int].path@,
                    ]);
                }
            },
        }
        i = i + 1;
    }
    proof {
        assert(first_bad(target@, files@, i as int) == files@.len());
    }
    (writes, Ok(UpdateReport { changed_files }))
}

} // verus!
