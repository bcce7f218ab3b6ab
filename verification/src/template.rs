//! The template descriptor: the resolved template's root, its merged
//! context, the immutable original-context snapshot, and abbreviations;
//! and the classification of what the caller named as a template source.

use vstd::prelude::*;

use crate::context::{is_reserved, Context};
use crate::errors::GenerateFilesError;
use crate::strutil::{chars_of, contains_char, str_eq};

verus! {

/// Where a template's files come from once resolved.
pub enum RepoDir {
    Path(String),
    RepoUrl(String),
}

/// What the caller named as the template source.
pub enum TemplateType {
    Path(String),
    ZipPath(String),
    RepoURL(String),
}

/// Whether the path names a zip archive: its final component has the
/// extension `zip`, in any letter case.
pub open spec fn is_zip_name(p: Seq<char>) -> bool {
    let n = p.len();
    &&& n >= 4
    &&& p[n - 4] == '.'
    &&& (p[n - 3] == 'z' || p[n - 3] == 'Z')
    &&& (p[n - 2] == 'i' || p[n - 2] == 'I')
    &&& (p[n - 1] == 'p' || p[n - 1] == 'P')
    &&& !(n == 4 || p[n - 5] == '/')
}

/// Whether the path names a zip archive by its extension.
pub fn is_zip_file(path: &String) -> (r: bool)
    ensures
        r == is_zip_name(path@),
{
    let p = chars_of(path.as_str());
    let n = p.len();
    if n < 4 {
        return false;
    }
    let dot = p[n - 4] == '.';
    let z = p[n - 3] == 'z' || p[n - 3] == 'Z';
    let i = p[n - 2] == 'i' || p[n - 2] == 'I';
    let last = p[n - 1] == 'p' || p[n - 1] == 'P';
    let hidden = n == 4 || p[n - 5] == '/';
    dot && z && i && last && !hidden
}

/// What `url::Url::parse` finds the string's scheme to be, when the
/// string parses as an absolute URL; the result depends on the
/// characters alone.
pub uninterp spec fn url_scheme_of(s: Seq<char>) -> Option<Seq<char>>;

/// Relies on `url::Url::parse` and `url::Url::scheme`: whether the
/// string parses as an absolute URL, and the scheme it then carries,
/// are functions of the string alone.
#[verifier::external_body]
fn parse_url_scheme(s: &str) -> (r: Option<String>)
    ensures
        r is Some <==> url_scheme_of(s@) is Some,
        r matches Some(sch) ==> url_scheme_of(s@) == Some(sch@),
{
    match url::Url::parse(s) {
        Ok(u) => Some(u.scheme().to_string()),
        Err(_) => None,
    }
}

/// Whether the string names a git repository: it parses as a URL with a
/// git-capable scheme, or it has the user-at-host shape.
pub open spec fn spec_is_git_repo(s: Seq<char>) -> bool {
    match url_scheme_of(s) {
        Some(sch) => sch == "http"@ || sch == "https"@ || sch == "git"@ || sch == "ssh"@,
        None => s.contains('@') && s.contains(':'),
    }
}

/// Whether the string names a git repository.
pub fn is_git_repo(url: &str) -> (r: bool)
    ensures
        r == spec_is_git_repo(url@),
{
    match parse_url_scheme(url) {
        Some(sch) => {
            let s = sch.as_str();
            str_eq(s, "http") || str_eq(s, "https") || str_eq(s, "git") || str_eq(s, "ssh")
        },
        None => {
            let cs = chars_of(url);
            contains_char(&cs, '@') && contains_char(&cs, ':')
        },
    }
}

/// Classifies the caller's template input. The caller reports what the
/// filesystem says of the input and of the optional directory override;
/// the classification itself is pure. An existing input must be a
/// directory (or a zip archive); a missing input must be a git URL; a
/// directory override must exist.
pub fn parse_template_input(
    input: String,
    input_exists: bool,
    input_is_file: bool,
    directory: Option<String>,
    directory_exists: bool,
) -> (r: Result<TemplateType, GenerateFilesError>)
    ensures
        input_exists && input_is_file ==> (r matches Err(GenerateFilesError::SourceConfig(m))
            && m@ == input@),
        input_exists && !input_is_file && is_zip_name(input@) ==> (r matches Ok(
            TemplateType::ZipPath(p),
        ) && p@ == input@),
        input_exists && !input_is_file && !is_zip_name(input@) ==> (match directory {
            Some(d) => {
                if directory_exists {
                    r matches Ok(TemplateType::Path(p)) && p@ == d@
                } else {
                    r matches Err(GenerateFilesError::SourceConfig(m)) && m@ == d@
                }
            },
            None => r matches Ok(TemplateType::Path(p)) && p@ == input@,
        }),
        !input_exists && spec_is_git_repo(input@) ==> (r matches Ok(TemplateType::RepoURL(u))
            && u@ == input@),
        !input_exists && !spec_is_git_repo(input@) ==> (r matches Err(
            GenerateFilesError::SourceConfig(m),
        ) && m@ == input@),
{
    if input_exists {
        if input_is_file {
            return Err(GenerateFilesError::SourceConfig(input));
        }
        if is_zip_file(&input) {
            return Ok(TemplateType::ZipPath(input));
        }
        match directory {
            Some(d) => {
                if directory_exists {
                    Ok(TemplateType::Path(d))
                } else {
                    Err(GenerateFilesError::SourceConfig(d))
                }
            },
            None => Ok(TemplateType::Path(input)),
        }
    } else {
        if is_git_repo(input.as_str()) {
            Ok(TemplateType::RepoURL(input))
        } else {
            Err(GenerateFilesError::SourceConfig(input))
        }
    }
}

/// One resolved template: its root directory, its merged context, the
/// original-context snapshot, and abbreviation expansions.
pub struct Template {
    pub template: Context,
    pub template_original: Context,
    pub abbreviations: Context,
    pub repo_dir: String,
}

impl Template {
    /// Every context the descriptor holds is well-formed.
    pub open spec fn wf(&self) -> bool {
        &&& self.template.wf()
        &&& self.template_original.wf()
        &&& self.abbreviations.wf()
    }

    /// A descriptor over the given merged context and template root,
    /// with an empty snapshot and no abbreviations yet.
    pub fn new(template: Context, repo_dir: String) -> (r: Template)
        requires
            template.wf(),
        ensures
            r.wf(),
            r.template == template,
            r.template_original@ == Map::<Seq<char>, crate::value::ValueV>::empty(),
            r.abbreviations@ == Map::<Seq<char>, crate::value::ValueV>::empty(),
            r.repo_dir == repo_dir,
    {
        Template {
            template,
            template_original: Context::new(),
            abbreviations: Context::new(),
            repo_dir,
        }
    }

    /// Captures the original-context snapshot: exactly the entries of the
    /// merged context whose key does not begin with the reserved prefix,
    /// each under its value. No reserved key is ever in the snapshot.
    pub fn generate_original_context(&mut self)
        requires
            old(self).wf(),
        ensures
            final(self).wf(),
            final(self).template == old(self).template,
            final(self).abbreviations == old(self).abbreviations,
            final(self).repo_dir == old(self).repo_dir,
            forall|k: Seq<char>| #[trigger] final(self).template_original@.contains_key(k) <==> (
            old(self).template@.contains_key(k) && !is_reserved(k)),
            forall|k: Seq<char>| #[trigger] final(self).template_original@.contains_key(k)
                ==> final(self).template_original@[k] == old(self).template@[k],
            forall|k: Seq<char>| is_reserved(k) ==> !(#[trigger] final(self).template_original@.contains_key(k)),
    {
        self.template_original = self.template.snapshot_original();
    }

    /// Installs the abbreviations loaded for the descriptor; a missing or
    /// unreadable abbreviation file yields none, which is not a fault.
    pub fn set_abbreviations(&mut self, loaded: Option<Context>)
        requires
            old(self).wf(),
            loaded matches Some(c) ==> c.wf(),
        ensures
            final(self).wf(),
            final(self).template == old(self).template,
            final(self).template_original == old(self).template_original,
            final(self).repo_dir == old(self).repo_dir,
            match loaded {
                Some(c) => final(self).abbreviations == c,
                None => final(self).abbreviations@ == Map::<
                    Seq<char>,
                    crate::value::ValueV,
                >::empty(),
            },
    {
        match loaded {
            Some(c) => {
                self.abbreviations = c;
            },
            None => {
                self.abbreviations = Context::new();
            },
        }
    }

    /// Whether the resolved source directory is temporary and is removed
    /// after the run: only an unpacked zip archive is.
    pub fn should_cleanup_dir(&self, template: &TemplateType) -> (r: bool)
        ensures
            r == (template is ZipPath),
    {
        match template {
            TemplateType::Path(_) => false,
            TemplateType::ZipPath(_) => true,
            TemplateType::RepoURL(_) => false,
        }
    }
}

} // verus!
