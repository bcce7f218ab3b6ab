//! The tree generator: resolves the destination directory, routes every
//! source entry through the pattern matcher and the substitution engine,
//! and produces the complete write plan for a generation run — or an
//! error and no plan at all. Failure before any write is what makes the
//! run all-or-nothing: a plan exists only when every entry rendered.

use vstd::prelude::*;

use crate::context::Context;
use crate::errors::GenerateFilesError;
use crate::glob::glob_match;
use crate::render::{render, spec_render};
use crate::strutil::{chars_of, contains_char, contains_sub, copy_chars, find_sub, string_of};
use crate::template::Template;
use crate::value::{lemma_arr_view, Value, ValueV};

verus! {

/// What one entry of the source tree is: a directory or a file with its
/// bytes. The path is relative to the template root and uses `/`.
pub enum EntryKind {
    Dir,
    File(Vec<u8>),
}

/// One entry of the source tree.
pub struct SrcEntry {
    pub rel_path: String,
    pub kind: EntryKind,
}

/// The shape of an entry kind.
pub enum EntryKindV {
    Dir,
    File(Seq<u8>),
}

/// The shape of a source entry.
pub struct SrcEntryV {
    pub rel_path: Seq<char>,
    pub kind: EntryKindV,
}

impl View for SrcEntry {
    type V = SrcEntryV;

    open spec fn view(&self) -> SrcEntryV {
        SrcEntryV {
            rel_path: self.rel_path@,
            kind: match self.kind {
                EntryKind::Dir => EntryKindV::Dir,
                EntryKind::File(b) => EntryKindV::File(b@),
            },
        }
    }
}

/// One write the plan asks of its executor.
pub enum Action {
    /// Create the directory (and any missing parents).
    MkDir(String),
    /// Write the bytes unchanged to the path.
    CopyBytes(String, Vec<u8>),
    /// Write the rendered text to the path.
    WriteText(String, String),
}

/// The shape of an action.
pub enum ActionV {
    MkDir(Seq<char>),
    CopyBytes(Seq<char>, Seq<u8>),
    WriteText(Seq<char>, Seq<char>),
}

impl View for Action {
    type V = ActionV;

    open spec fn view(&self) -> ActionV {
        match self {
            Action::MkDir(p) => ActionV::MkDir(p@),
            Action::CopyBytes(p, b) => ActionV::CopyBytes(p@, b@),
            Action::WriteText(p, t) => ActionV::WriteText(p@, t@),
        }
    }
}

/// The whole plan of one generation run. Its executor performs the
/// actions in order; on a failure mid-way it removes everything under
/// `dest_root` exactly when `delete_on_failure` holds.
pub struct Plan {
    pub dest_root: String,
    pub delete_on_failure: bool,
    pub actions: Vec<Action>,
}

/// The shapes of the entries, in order.
pub open spec fn entries_views(s: Seq<SrcEntry>) -> Seq<SrcEntryV>
    decreases s.len(),
{
    if s.len() == 0 {
        Seq::empty()
    } else {
        entries_views(s.drop_last()).push(s.last()@)
    }
}

/// `entries_views` keeps the length and maps each entry to its shape.
pub proof fn lemma_entries_views(s: Seq<SrcEntry>)
    ensures
        entries_views(s).len() == s.len(),
        forall|i: int| 0 <= i < s.len() ==> #[trigger] entries_views(s)[i] == s[i]@,
    decreases s.len(),
{
    if s.len() > 0 {
        lemma_entries_views(s.drop_last());
        assert forall|i: int| 0 <= i < s.len() implies #[trigger] entries_views(s)[i] == s[i]@ by {
            if i < s.len() - 1 {
                assert(s.drop_last()[i] == s[i]);
                assert(entries_views(s)[i] == entries_views(s.drop_last())[i]);
            } else {
                assert(s.last() == s[i]);
            }
        }
    }
}

/// The shapes of the actions, in order.
pub open spec fn acts_views(s: Seq<Action>) -> Seq<ActionV>
    decreases s.len(),
{
    if s.len() == 0 {
        Seq::empty()
    } else {
        acts_views(s.drop_last()).push(s.last()@)
    }
}

/// Pushing an action maps to pushing its shape.
pub proof fn lemma_acts_push(pre: Seq<Action>, a: Action)
    ensures
        acts_views(pre.push(a)) == acts_views(pre).push(a@),
{
    assert(pre.push(a).drop_last() =~= pre);
    assert(pre.push(a).last() == a);
}

/// What `String::from_utf8` decodes the bytes to, when they are valid
/// UTF-8; the result depends on the bytes alone.
pub uninterp spec fn utf8_chars(b: Seq<u8>) -> Option<Seq<char>>;

/// Relies on `String::from_utf8`: returns the string the UTF-8 bytes
/// encode, or nothing when they are not valid UTF-8.
#[verifier::external_body]
fn bytes_to_string(b: &Vec<u8>) -> (r: Option<String>)
    ensures
        match r {
            Some(s) => utf8_chars(b@) == Some(s@),
            None => utf8_chars(b@) is None,
        },
{
    String::from_utf8(b.clone()).ok()
}

/// A duplicate of the bytes.
fn copy_bytes(src: &Vec<u8>) -> (r: Vec<u8>)
    ensures
        r@ == src@,
{
    let mut out: Vec<u8> = Vec::new();
    let mut i: usize = 0;
    while i < src.len()
        invariant
            i <= src@.len(),
            out@ == src@.subrange(0, i as int),
        decreases src@.len() - i,
    {
        out.push(src[i]);
        proof {
            assert(out@ =~= src@.subrange(0, i as int + 1));
        }
        i = i + 1;
    }
    proof {
        assert(out@ =~= src@);
    }
    out
}

/// Whether a directory name is the project-root placeholder: it opens a
/// placeholder and closes one, as in the conventional top-level
/// placeholder directory of a template.
pub open spec fn is_marker_name(s: Seq<char>) -> bool {
    &&& s.len() >= 2
    &&& s[0] == '{'
    &&& s[1] == '{'
    &&& contains_sub(s, "}}"@)
}

/// Whether the entry is a top-level directory bearing the project-root
/// placeholder name.
pub open spec fn is_top_marker(e: SrcEntryV) -> bool {
    &&& e.kind is Dir
    &&& !e.rel_path.contains('/')
    &&& is_marker_name(e.rel_path)
}

/// The name of the first top-level project-root placeholder directory.
pub open spec fn find_marker(s: Seq<SrcEntryV>) -> Option<Seq<char>>
    decreases s.len(),
{
    if s.len() == 0 {
        None
    } else if is_top_marker(s[0]) {
        Some(s[0].rel_path)
    } else {
        find_marker(s.drop_first())
    }
}

/// The first top-level directory of the tree whose name bears the
/// project-root placeholder, if any.
#[verifier::loop_isolation(false)]
pub fn find_child_dir(tree: &Vec<SrcEntry>) -> (r: Option<String>)
    ensures
        match r {
            Some(name) => find_marker(entries_views(tree@)) == Some(name@),
            None => find_marker(entries_views(tree@)) is None,
        },
{
    proof {
        lemma_entries_views(tree@);
    }
    let ghost evs = entries_views(tree@);
    let close = chars_of("}}");
    let mut i: usize = 0;
    proof {
        assert(evs.skip(0) =~= evs);
    }
    while i < tree.len()
        invariant
            i <= tree@.len(),
            close@ == "}}"@,
            evs == entries_views(tree@),
            evs.len() == tree@.len(),
            forall|j: int| 0 <= j < tree@.len() ==> #[trigger] evs[j] == tree@[j]@,
            find_marker(evs) == find_marker(evs.skip(i as int)),
        decreases tree@.len() - i,
    {
        let e = &tree[i];
        let is_dir = match &e.kind {
            EntryKind::Dir => true,
            EntryKind::File(_) => false,
        };
        let pc = chars_of(e.rel_path.as_str());
        let top = !contains_char(&pc, '/');
        let marker = pc.len() >= 2 && pc[0] == '{' && pc[1] == '{' && find_sub(&pc, &close);
        proof {
            assert(evs.skip(i as int)[0] == evs[i as int]);
            assert(evs.skip(i as int).drop_first() =~= evs.skip(i as int + 1));
        }
        if is_dir && top && marker {
            proof {
                assert(is_top_marker(evs[i as int]));
            }
            return Some(e.rel_path.clone());
        }
        proof {
            assert(!is_top_marker(evs[i as int]));
        }
        i = i + 1;
    }
    proof {
        assert(evs.skip(i as int) =~= Seq::<SrcEntryV>::empty());
    }
    None
}

/// The view of an optional string.
pub open spec fn opt_str_view(o: Option<String>) -> Option<Seq<char>> {
    match o {
        Some(s) => Some(s@),
        None => None,
    }
}

/// The destination path: the rendered name joined under the output base
/// directory, or the name alone when no base was given.
pub open spec fn join_dest(base: Option<Seq<char>>, name: Seq<char>) -> Seq<char> {
    match base {
        Some(b) => b + "/"@ + name,
        None => name,
    }
}

/// Whether the path lies strictly inside the directory: it continues
/// past the directory name with a separator and at least one character.
pub open spec fn is_strict_sub(marker: Seq<char>, path: Seq<char>) -> bool {
    &&& path.len() > marker.len() + 1
    &&& path.subrange(0, marker.len() as int) == marker
    &&& path[marker.len() as int] == '/'
}

/// The path inside the marker directory, when the path lies strictly
/// inside it.
fn strip_marker(path: &str, marker: &str) -> (r: Option<String>)
    ensures
        match r {
            Some(inner) => is_strict_sub(marker@, path@) && inner@ == path@.skip(
                marker@.len() as int + 1,
            ),
            None => !is_strict_sub(marker@, path@),
        },
{
    let pc = chars_of(path);
    let mc = chars_of(marker);
    let n = pc.len();
    let m = mc.len();
    if n <= m || n - m <= 1 {
        return None;
    }
    let mut i: usize = 0;
    #[verifier::loop_isolation(false)]
    while i < m
        invariant
            i <= m,
            m == mc@.len(),
            n == pc@.len(),
            n > m + 1,
            forall|j: int| 0 <= j < i as int ==> pc@[j] == mc@[j],
        decreases m - i,
    {
        if pc[i] != mc[i] {
            proof {
                assert(path@.subrange(0, marker@.len() as int)[i as int] != marker@[i as int]);
            }
            return None;
        }
        i = i + 1;
    }
    if pc[m] != '/' {
        return None;
    }
    proof {
        assert(path@.subrange(0, marker@.len() as int) =~= marker@);
    }
    Some(string_of(&copy_chars(&pc, m + 1, n)))
}

/// Whether the configuration's exclusion patterns mark the path
/// copy-only: the reserved exclusion key holds an array, and one of its
/// string entries is a glob that matches the path. A missing key, a
/// non-array value, or a non-string entry excludes nothing.
pub open spec fn spec_is_copy_only(cmap: Map<Seq<char>, ValueV>, path: Seq<char>) -> bool {
    &&& cmap.contains_key("_copy_without_render"@)
    &&& match cmap["_copy_without_render"@] {
        ValueV::Arr(a) => exists|j: int|
            0 <= j < a.len() && ((#[trigger] a[j]) matches ValueV::Str(pat)
                && crate::glob::glob_matches(pat, path)),
        _ => false,
    }
}

/// Whether the entry path is copied without rendering, by the template's
/// configured exclusion patterns.
#[verifier::loop_isolation(false)]
pub fn is_copy_only_path(path: &str, template: &Template) -> (r: bool)
    requires
        template.wf(),
    ensures
        r == spec_is_copy_only(template.template@, path@),
{
    match template.template.get("_copy_without_render") {
        None => false,
        Some(v) => match v {
            Value::Arr(items) => {
                proof {
                    lemma_arr_view(items@);
                }
                let ghost a = v@->Arr_0;
                let mut j: usize = 0;
                while j < items.len()
                    invariant
                        a == crate::value::arr_view(items@),
                        a.len() == items@.len(),
                        forall|k: int| 0 <= k < items@.len() ==> #[trigger] a[k] == items@[k]@,
                        j <= items@.len(),
                        forall|k: int| 0 <= k < j as int ==> !((#[trigger] a[k]) matches
                            ValueV::Str(pat) && crate::glob::glob_matches(pat, path@)),
                    decreases items@.len() - j,
                {
                    match &items[j] {
                        Value::Str(s) => {
                            if glob_match(s.as_str(), path) {
                                proof {
                                    assert(a[j as int] matches ValueV::Str(pat)
                                        && crate::glob::glob_matches(pat, path@));
                                }
                                return true;
                            }
                        },
                        _ => {},
                    }
                    j = j + 1;
                }
                false
            },
            _ => false,
        },
    }
}

/// Renders one source-relative path through the context.
pub fn render_rel_path(rel_path: &str, context: &Context) -> (r: Result<
    String,
    GenerateFilesError,
>)
    requires
        context.wf(),
    ensures
        match r {
            Ok(s) => spec_render(rel_path@, context@) == Some(s@),
            Err(e) => spec_render(rel_path@, context@) is None && e is RenderFailure,
        },
{
    render(rel_path, context)
}

/// The rendered name of the project destination directory: the
/// project-root placeholder directory's name, rendered through the
/// merged context.
pub fn find_project_dir_name(template_data: &Template, tree: &Vec<SrcEntry>) -> (r: Result<
    String,
    GenerateFilesError,
>)
    requires
        template_data.wf(),
    ensures
        match r {
            Ok(s) => find_marker(entries_views(tree@)) matches Some(m) && spec_render(
                m,
                template_data.template@,
            ) == Some(s@),
            Err(e) => match e {
                GenerateFilesError::NoOutputDirPattern => find_marker(entries_views(tree@))
                    is None,
                GenerateFilesError::RenderFailure(_) => find_marker(entries_views(tree@)) matches
                    Some(m) && spec_render(m, template_data.template@) is None,
                _ => false,
            },
        },
{
    match find_child_dir(tree) {
        None => Err(GenerateFilesError::NoOutputDirPattern),
        Some(name) => render(name.as_str(), &template_data.template),
    }
}

/// The resolved destination directory for the run, after the overwrite
/// gate: when the destination already exists and overwriting is not
/// permitted, the run fails before anything is written.
pub fn create_dir(
    template_data: &Template,
    tree: &Vec<SrcEntry>,
    output_dir: &Option<String>,
    overwrite_if_exists: bool,
    dest_exists: bool,
) -> (r: Result<String, GenerateFilesError>)
    requires
        template_data.wf(),
    ensures
        ({
            let evs = entries_views(tree@);
            let cmap = template_data.template@;
            match r {
                Ok(d) => {
                    &&& find_marker(evs) matches Some(m)
                    &&& spec_render(find_marker(evs)->0, cmap) matches Some(dn)
                    &&& d@ == join_dest(opt_str_view(*output_dir), spec_render(
                        find_marker(evs)->0,
                        cmap,
                    )->0)
                    &&& !(dest_exists && !overwrite_if_exists)
                },
                Err(e) => match e {
                    GenerateFilesError::NoOutputDirPattern => find_marker(evs) is None,
                    GenerateFilesError::RenderFailure(_) => find_marker(evs) matches Some(m)
                        && spec_render(m, cmap) is None,
                    GenerateFilesError::DirectoryExists(d) => {
                        &&& find_marker(evs) matches Some(m)
                        &&& spec_render(find_marker(evs)->0, cmap) matches Some(dn)
                        &&& dest_exists && !overwrite_if_exists
                        &&& d@ == join_dest(opt_str_view(*output_dir), spec_render(
                            find_marker(evs)->0,
                            cmap,
                        )->0)
                    },
                    _ => false,
                },
            }
        }),
{
    let dir_name = find_project_dir_name(template_data, tree)?;
    let final_dir: String = match output_dir {
        Some(base) => {
            let mut d = base.clone();
            d.append("/");
            d.append(dir_name.as_str());
            d
        },
        None => dir_name,
    };
    if dest_exists && !overwrite_if_exists {
        return Err(GenerateFilesError::DirectoryExists(final_dir));
    }
    Ok(final_dir)
}

/// What the run does with one source entry: nothing for an entry outside
/// the project-root placeholder directory; a directory creation, a
/// verbatim copy, or a rendered write for one inside it; and no plan at
/// all when a path, a file body, or the file's encoding fails.
pub open spec fn entry_plan(
    cmap: Map<Seq<char>, ValueV>,
    e: SrcEntryV,
    marker: Seq<char>,
    dest: Seq<char>,
) -> Option<Option<ActionV>> {
    if !is_strict_sub(marker, e.rel_path) {
        Some(None)
    } else {
        match spec_render(e.rel_path.skip(marker.len() as int + 1), cmap) {
            None => None,
            Some(rp) => {
                let out = dest + "/"@ + rp;
                match e.kind {
                    EntryKindV::Dir => Some(Some(ActionV::MkDir(out))),
                    EntryKindV::File(bytes) => if spec_is_copy_only(cmap, e.rel_path) {
                        Some(Some(ActionV::CopyBytes(out, bytes)))
                    } else {
                        match utf8_chars(bytes) {
                            None => None,
                            Some(text) => match spec_render(text, cmap) {
                                None => None,
                                Some(rt) => Some(Some(ActionV::WriteText(out, rt))),
                            },
                        }
                    },
                }
            },
        }
    }
}

/// The actions of the whole run, in traversal order; no actions at all
/// when any entry fails.
pub open spec fn plan_actions(
    cmap: Map<Seq<char>, ValueV>,
    entries: Seq<SrcEntryV>,
    marker: Seq<char>,
    dest: Seq<char>,
) -> Option<Seq<ActionV>>
    decreases entries.len(),
{
    if entries.len() == 0 {
        Some(Seq::empty())
    } else {
        match entry_plan(cmap, entries[0], marker, dest) {
            None => None,
            Some(opt) => match plan_actions(cmap, entries.drop_first(), marker, dest) {
                None => None,
                Some(rest) => Some(
                    match opt {
                        Some(a) => seq![a] + rest,
                        None => rest,
                    },
                ),
            },
        }
    }
}

/// Unrolls `plan_actions` at position `i`.
pub proof fn lemma_plan_step(
    cmap: Map<Seq<char>, ValueV>,
    evs: Seq<SrcEntryV>,
    i: int,
    marker: Seq<char>,
    dest: Seq<char>,
)
    requires
        0 <= i < evs.len(),
    ensures
        plan_actions(cmap, evs.skip(i), marker, dest) == (match entry_plan(
            cmap,
            evs[i],
            marker,
            dest,
        ) {
            None => None,
            Some(opt) => match plan_actions(cmap, evs.skip(i + 1), marker, dest) {
                None => None::<Seq<ActionV>>,
                Some(rest) => Some(
                    match opt {
                        Some(a) => seq![a] + rest,
                        None => rest,
                    },
                ),
            },
        }),
{
    assert(evs.skip(i).len() == evs.len() - i);
    assert(evs.skip(i)[0] == evs[i]);
    assert(evs.skip(i).drop_first() =~= evs.skip(i + 1));
}

/// All-or-nothing: when any entry of the tree fails to render or to
/// decode, the run has no plan, so nothing of it is ever written.
pub proof fn lemma_plan_all_or_nothing(
    cmap: Map<Seq<char>, ValueV>,
    entries: Seq<SrcEntryV>,
    i: int,
    marker: Seq<char>,
    dest: Seq<char>,
)
    requires
        0 <= i < entries.len(),
        entry_plan(cmap, entries[i], marker, dest) is None,
    ensures
        plan_actions(cmap, entries, marker, dest) is None,
    decreases entries.len(),
{
    if i == 0 {
    } else {
        assert(entries.drop_first()[i - 1] == entries[i]);
        lemma_plan_all_or_nothing(cmap, entries.drop_first(), i - 1, marker, dest);
    }
}

/// Copy-only exactness: a file inside the placeholder directory whose
/// path matches a configured exclusion pattern is planned as a verbatim
/// copy of its own bytes, never passed through the substitution engine.
pub proof fn lemma_copy_only_exact(
    cmap: Map<Seq<char>, ValueV>,
    e: SrcEntryV,
    marker: Seq<char>,
    dest: Seq<char>,
    bytes: Seq<u8>,
)
    requires
        is_strict_sub(marker, e.rel_path),
        e.kind == EntryKindV::File(bytes),
        spec_is_copy_only(cmap, e.rel_path),
        spec_render(e.rel_path.skip(marker.len() as int + 1), cmap) is Some,
    ensures
        entry_plan(cmap, e, marker, dest) == Some(
            Some(
                ActionV::CopyBytes(
                    dest + "/"@ + spec_render(e.rel_path.skip(marker.len() as int + 1), cmap)->0,
                    bytes,
                ),
            ),
        ),
{
}

/// A file inside the placeholder directory that is not copy-only is
/// written as its rendered text, so its output differs from its source
/// only in rendered placeholder regions: when its body opens no
/// placeholder at all, the planned write holds the body unchanged.
pub proof fn lemma_plain_file_unchanged(
    cmap: Map<Seq<char>, ValueV>,
    e: SrcEntryV,
    marker: Seq<char>,
    dest: Seq<char>,
    bytes: Seq<u8>,
    text: Seq<char>,
)
    requires
        is_strict_sub(marker, e.rel_path),
        e.kind == EntryKindV::File(bytes),
        !spec_is_copy_only(cmap, e.rel_path),
        utf8_chars(bytes) == Some(text),
        forall|i: int| !crate::render::is_open_at(text, i),
        spec_render(e.rel_path.skip(marker.len() as int + 1), cmap) is Some,
    ensures
        entry_plan(cmap, e, marker, dest) == Some(
            Some(
                ActionV::WriteText(
                    dest + "/"@ + spec_render(e.rel_path.skip(marker.len() as int + 1), cmap)->0,
                    text,
                ),
            ),
        ),
{
    crate::render::lemma_render_no_placeholders(text, cmap);
}

/// Plans one whole generation run. Succeeds exactly when the tree holds
/// a project-root placeholder directory, its name renders, the overwrite
/// gate passes, and every entry inside the placeholder directory renders
/// (or is copy-only): the plan then holds the destination root and one
/// action per generated entry, in traversal order. On any failure there
/// is no plan, and nothing of the run exists to be written.
#[verifier::loop_isolation(false)]
pub fn generate_files(
    template_data: &Template,
    tree: &Vec<SrcEntry>,
    output_dir: &Option<String>,
    overwrite_if_exists: bool,
    dest_exists: bool,
    keep_project_on_failure: bool,
) -> (r: Result<Plan, GenerateFilesError>)
    requires
        template_data.wf(),
    ensures
        ({
            let evs = entries_views(tree@);
            let cmap = template_data.template@;
            match r {
                Ok(plan) => {
                    &&& find_marker(evs) matches Some(m)
                    &&& spec_render(find_marker(evs)->0, cmap) matches Some(dn)
                    &&& !(dest_exists && !overwrite_if_exists)
                    &&& plan.dest_root@ == join_dest(opt_str_view(*output_dir), spec_render(
                        find_marker(evs)->0,
                        cmap,
                    )->0)
                    &&& plan.delete_on_failure == !keep_project_on_failure
                    &&& plan_actions(cmap, evs, find_marker(evs)->0, plan.dest_root@) == Some(
                        acts_views(plan.actions@),
                    )
                },
                Err(e) => match e {
                    GenerateFilesError::NoOutputDirPattern => find_marker(evs) is None,
                    GenerateFilesError::DirectoryExists(d) => {
                        &&& find_marker(evs) matches Some(m)
                        &&& spec_render(find_marker(evs)->0, cmap) matches Some(dn)
                        &&& dest_exists && !overwrite_if_exists
                        &&& d@ == join_dest(opt_str_view(*output_dir), spec_render(
                            find_marker(evs)->0,
                            cmap,
                        )->0)
                    },
                    GenerateFilesError::RenderFailure(_) => {
                        ||| (find_marker(evs) matches Some(m) && spec_render(m, cmap) is None)
                        ||| (find_marker(evs) matches Some(m) && spec_render(m, cmap) is Some && !(
                        dest_exists && !overwrite_if_exists) && plan_actions(
                            cmap,
                            evs,
                            find_marker(evs)->0,
                            join_dest(opt_str_view(*output_dir), spec_render(
                                find_marker(evs)->0,
                                cmap,
                            )->0),
                        ) is None)
                    },
                    GenerateFilesError::IoError(_) => {
                        &&& find_marker(evs) matches Some(m)
                        &&& spec_render(find_marker(evs)->0, cmap) is Some
                        &&& !(dest_exists && !overwrite_if_exists)
                        &&& plan_actions(
                            cmap,
                            evs,
                            find_marker(evs)->0,
                            join_dest(opt_str_view(*output_dir), spec_render(
                                find_marker(evs)->0,
                                cmap,
                            )->0),
                        ) is None
                    },
                    GenerateFilesError::SourceConfig(_) => false,
                },
            }
        }),
{
    let ghost evs = entries_views(tree@);
    let ghost cmap = template_data.template@;
    proof {
        lemma_entries_views(tree@);
    }
    let marker_name = match find_child_dir(tree) {
        None => {
            return Err(GenerateFilesError::NoOutputDirPattern);
        },
        Some(name) => name,
    };
    let ghost marker = marker_name@;
    let dest_root = create_dir(template_data, tree, output_dir, overwrite_if_exists, dest_exists)?;
    let ghost dest = dest_root@;
    let mut actions: Vec<Action> = Vec::new();
    let mut i: usize = 0;
    proof {
        assert(evs.skip(0) =~= evs);
        assert(acts_views(actions@) =~= Seq::<ActionV>::empty());
        assert(acts_views(actions@) + plan_actions(cmap, evs, marker, dest)->0 =~= plan_actions(
            cmap,
            evs,
            marker,
            dest,
        )->0);
    }
    while i < tree.len()
        invariant
            i <= tree@.len(),
            evs.len() == tree@.len(),
            forall|j: int| 0 <= j < tree@.len() ==> #[trigger] evs[j] == tree@[j]@,
            match plan_actions(cmap, evs.skip(i as int), marker, dest) {
                Some(rest) => plan_actions(cmap, evs, marker, dest) == Some(
                    acts_views(actions@) + rest,
                ),
                None => plan_actions(cmap, evs, marker, dest) is None,
            },
        decreases tree@.len() - i,
    {
        proof {
            lemma_plan_step(cmap, evs, i as int, marker, dest);
        }
        let e = &tree[i];
        let ghost pre = actions@;
        match strip_marker(e.rel_path.as_str(), marker_name.as_str()) {
            None => {
                proof {
                    assert(entry_plan(cmap, evs[i as int], marker, dest) == Some(
                        None::<ActionV>,
                    ));
                }
            },
            Some(inner) => {
                let rendered_rel = match render(inner.as_str(), &template_data.template) {
                    Err(err) => {
                        proof {
                            assert(entry_plan(cmap, evs[i as int], marker, dest) is None);
                        }
                        return Err(err);
                    },
                    Ok(s) => s,
                };
                let mut out_path = dest_root.clone();
                out_path.append("/");
                out_path.append(rendered_rel.as_str());
                proof {
                    assert(out_path@ == dest + "/"@ + rendered_rel@);
                }
                match &e.kind {
                    EntryKind::Dir => {
                        actions.push(Action::MkDir(out_path));
                        proof {
                            lemma_acts_push(pre, actions@.last());
                            assert(actions@.last()@ == ActionV::MkDir(dest + "/"@
                                + rendered_rel@));
                        }
                    },
                    EntryKind::File(bytes) => {
                        if is_copy_only_path(e.rel_path.as_str(), template_data) {
                            let copied = copy_bytes(bytes);
                            actions.push(Action::CopyBytes(out_path, copied));
                            proof {
                                lemma_acts_push(pre, actions@.last());
                                assert(actions@.last()@ == ActionV::CopyBytes(
                                    dest + "/"@ + rendered_rel@,
                                    bytes@,
                                ));
                            }
                        } else {
                            let text = match bytes_to_string(bytes) {
                                None => {
                                    proof {
                                        assert(entry_plan(cmap, evs[i as int], marker, dest)
                                            is None);
                                    }
                                    return Err(
                                        GenerateFilesError::IoError(e.rel_path.clone()),
                                    );
                                },
                                Some(t) => t,
                            };
                            match render(text.as_str(), &template_data.template) {
                                Err(err) => {
                                    proof {
                                        assert(entry_plan(cmap, evs[i as int], marker, dest)
                                            is None);
                                    }
                                    return Err(err);
                                },
                                Ok(rt) => {
                                    actions.push(Action::WriteText(out_path, rt));
                                    proof {
                                        lemma_acts_push(pre, actions@.last());
                                        assert(actions@.last()@ matches ActionV::WriteText(
                                            op,
                                            _,
                                        ) && op == dest + "/"@ + rendered_rel@);
                                    }
                                },
                            }
                        }
                    },
                }
            },
        }
        proof {
            match plan_actions(cmap, evs.skip(i as int + 1), marker, dest) {
                Some(rest2) => {
                    match entry_plan(cmap, evs[i as int], marker, dest) {
                        Some(opt) => match opt {
                            Some(a) => {
                                assert(acts_views(actions@) + rest2 =~= acts_views(pre) + (
                                seq![a] + rest2));
                            },
                            None => {
                                assert(actions@ == pre);
                            },
                        },
                        None => {
                            assert(false);
                        },
                    }
                },
                None => {},
            }
        }
        i = i + 1;
    }
    proof {
        assert(evs.skip(i as int) =~= Seq::<SrcEntryV>::empty());
        assert(plan_actions(cmap, evs, marker, dest) == Some(
            acts_views(actions@) + Seq::<ActionV>::empty(),
        ));
        assert(acts_views(actions@) + Seq::<ActionV>::empty() =~= acts_views(actions@));
    }
    Ok(Plan { dest_root, delete_on_failure: !keep_project_on_failure, actions })
}

} // verus!
