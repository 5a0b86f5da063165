//! The decisions behind `hm init`: which template step to take, whether a
//! template may be written, how `.gitignore` gains an entry, what happens
//! to each bundled skill file, and the text of the sparse cloud project
//! config.

use vstd::prelude::*;

use crate::text::{
    chars_equal, chars_of, index_from, lacks_char, last_index, last_index_of, push_chars, push_str, slice, string_of, trim,
    trimmed,
};

verus! {

/// The project templates `hm init` offers.
#[derive(Clone, Copy, Debug, PartialEq, Eq, Structural)]
pub enum TemplateKind {
    Cmake,
    Elixir,
    Nextjs,
    Js,
    Rust,
    Zig,
    Python,
}

/// Arguments of `hm init`.
#[derive(Clone, Debug)]
pub struct InitArgs {
    /// Project template.
    pub template: Option<TemplateKind>,
    /// Target directory.
    pub dir: String,
    /// Overwrite an existing pipeline file.
    pub force: bool,
}

/// The label a template is listed under.
pub open spec fn label_of(k: TemplateKind) -> Seq<char> {
    match k {
        TemplateKind::Cmake => "CMake"@,
        TemplateKind::Elixir => "Elixir"@,
        TemplateKind::Nextjs => "Next.js"@,
        TemplateKind::Js => "JavaScript / TypeScript"@,
        TemplateKind::Rust => "Rust"@,
        TemplateKind::Zig => "Zig"@,
        TemplateKind::Python => "Python"@,
    }
}

/// Whether a template's pipeline is written in the TypeScript DSL (the
/// others use the Python DSL).
pub open spec fn uses_typescript(k: TemplateKind) -> bool {
    k == TemplateKind::Nextjs || k == TemplateKind::Js || k == TemplateKind::Zig
}

/// Every template, in the order they are offered.
pub open spec fn template_order() -> Seq<TemplateKind> {
    seq![
        TemplateKind::Cmake,
        TemplateKind::Elixir,
        TemplateKind::Nextjs,
        TemplateKind::Js,
        TemplateKind::Rust,
        TemplateKind::Zig,
        TemplateKind::Python,
    ]
}

impl TemplateKind {
    /// The label this template is listed under.
    pub fn label(self) -> (s: &'static str)
        ensures
            s@ == label_of(self),
    {
        match self {
            TemplateKind::Cmake => "CMake",
            TemplateKind::Elixir => "Elixir",
            TemplateKind::Nextjs => "Next.js",
            TemplateKind::Js => "JavaScript / TypeScript",
            TemplateKind::Rust => "Rust",
            TemplateKind::Zig => "Zig",
            TemplateKind::Python => "Python",
        }
    }

    /// The file under `.hm/` the template is written to.
    pub fn filename(self) -> (s: &'static str)
        ensures
            s@ == "pipeline.py"@,
    {
        "pipeline.py"
    }

    /// The name of the DSL the template's pipeline is written in.
    pub fn dsl_name(self) -> (s: &'static str)
        ensures
            s@ == (if uses_typescript(self) {
                "TypeScript"@
            } else {
                "Python"@
            }),
    {
        match self {
            TemplateKind::Nextjs | TemplateKind::Js | TemplateKind::Zig => "TypeScript",
            _ => "Python",
        }
    }
}

/// Every template, in the order they are offered.
pub fn all_templates() -> (v: Vec<TemplateKind>)
    ensures
        v@ == template_order(),
{
    let v = vec![
        TemplateKind::Cmake,
        TemplateKind::Elixir,
        TemplateKind::Nextjs,
        TemplateKind::Js,
        TemplateKind::Rust,
        TemplateKind::Zig,
        TemplateKind::Python,
    ];
    proof {
        assert(v@ =~= template_order());
    }
    v
}

/// What `hm init` does about the pipeline template.
#[derive(Clone, Copy, Debug, PartialEq, Eq, Structural)]
pub enum TemplateStep {
    /// A pipeline exists and nothing asks to replace it: leave it.
    Keep,
    /// Write the given template.
    Use(TemplateKind),
    /// Ask the user to pick one.
    Ask,
}

/// Why `hm init` cannot go on.
#[derive(Clone, Copy, Debug, PartialEq, Eq, Structural)]
pub enum InitError {
    /// No template was named and there is no terminal to ask on.
    NoTemplate,
}

impl InitError {
    /// The error's text.
    pub fn message(&self) -> (s: String)
        ensures
            s@ == "no template specified and no terminal available\n  hint: pass --template <name> in non-interactive contexts"@,
    {
        "no template specified and no terminal available\n  hint: pass --template <name> in non-interactive contexts".to_owned()
    }
}

/// The template step for the given flags: an existing pipeline is kept
/// unless a template is named or `force` is set; a named template is
/// used; otherwise the user is asked, which needs a terminal.
pub fn template_step(template: Option<TemplateKind>, has_pipeline: bool, force: bool, tty: bool) -> (r: Result<
    TemplateStep,
    InitError,
>)
    ensures
        (template is None && has_pipeline && !force) ==> r == Ok::<TemplateStep, InitError>(TemplateStep::Keep),
        template matches Some(k) ==> r == Ok::<TemplateStep, InitError>(TemplateStep::Use(k)),
        (template is None && !(has_pipeline && !force) && tty) ==> r == Ok::<TemplateStep, InitError>(
            TemplateStep::Ask,
        ),
        (template is None && !(has_pipeline && !force) && !tty) ==> r == Err::<TemplateStep, InitError>(
            InitError::NoTemplate,
        ),
{
    match template {
        Some(k) => Ok(TemplateStep::Use(k)),
        None => {
            if has_pipeline && !force {
                Ok(TemplateStep::Keep)
            } else if tty {
                Ok(TemplateStep::Ask)
            } else {
                Err(InitError::NoTemplate)
            }
        },
    }
}

/// Whether the template file may be written: not when `.hm/` exists and
/// already holds a pipeline, unless `force` is set.
pub fn may_write_template(hm_dir_exists: bool, has_pipeline: bool, force: bool) -> (b: bool)
    ensures
        b == !(hm_dir_exists && has_pipeline && !force),
{
    !(hm_dir_exists && has_pipeline && !force)
}

// ---------------------------------------------------------------------
// `.gitignore` entries.
// ---------------------------------------------------------------------

/// `c[i..j]` is one of the lines of `c`: a maximal run without `'\n'`
/// that starts before the end (a final `'\n'` ends the last line rather
/// than starting an empty one).
pub open spec fn is_line(c: Seq<char>, i: int, j: int) -> bool {
    &&& 0 <= i < c.len()
    &&& i <= j <= c.len()
    &&& (i == 0 || c[i - 1] == '\n')
    &&& (j == c.len() || c[j] == '\n')
    &&& forall|k: int| i <= k < j ==> c[k] != '\n'
}

/// `c[i..j]` is a line of `c` that equals `e` once trimmed.
pub open spec fn line_matches(c: Seq<char>, e: Seq<char>, i: int, j: int) -> bool {
    is_line(c, i, j) && trimmed(c.subrange(i, j)) == e
}

/// Some line of `c`, trimmed, equals `e`.
pub open spec fn has_entry_line(c: Seq<char>, e: Seq<char>) -> bool {
    exists|i: int, j: int| #[trigger] line_matches(c, e, i, j)
}

/// The `.gitignore` text after making sure it lists `entry`: `None` when
/// there is nothing to write, because a line already reads `entry` once
/// trimmed. A missing file gets `entry` and a newline; an existing one
/// gets them appended, after a newline of its own if it lacks a final one.
pub open spec fn gitignore_after(existing: Option<Seq<char>>, entry: Seq<char>) -> Option<Seq<char>> {
    match existing {
        None => Some(entry + "\n"@),
        Some(c) => if has_entry_line(c, entry) {
            None
        } else if c.len() > 0 && c.last() == '\n' {
            Some(c + entry + "\n"@)
        } else {
            Some(c + "\n"@ + entry + "\n"@)
        },
    }
}

/// Whether some line of `c`, trimmed, equals `e`.
fn has_line(c: &Vec<char>, e: &Vec<char>) -> (b: bool)
    ensures
        b == has_entry_line(c@, e@),
{
    let mut start: usize = 0;
    while start < c.len()
        invariant
            start <= c@.len(),
            start == 0 || c@[start - 1] == '\n',
            forall|i: int, j: int| i < start && #[trigger] line_matches(c@, e@, i, j) ==> false,
        decreases c@.len() - start,
    {
        let end = index_from(c, start, '\n');
        let line = slice(c, start, end);
        let t = trim(&line);
        proof {
            assert(is_line(c@, start as int, end as int));
        }
        if chars_equal(&t, e) {
            proof {
                assert(line_matches(c@, e@, start as int, end as int));
            }
            return true;
        }
        proof {
            assert forall|i: int, j: int| i < end + 1 && #[trigger] line_matches(c@, e@, i, j) implies false by {
                if i >= start {
                    if i > start {
                        assert(c@[i - 1] != '\n');
                    }
                    assert(i == start);
                    if j < end {
                        assert(c@[j] != '\n');
                    }
                    if j > end {
                        assert(c@[end as int] != '\n');
                    }
                    assert(j == end);
                }
            }
        }
        if end == c.len() {
            proof {
                if has_entry_line(c@, e@) {
                    let (i, j) = choose|i: int, j: int| #[trigger] line_matches(c@, e@, i, j);
                    assert(line_matches(c@, e@, i, j));
                }
            }
            return false;
        }
        start = end + 1;
    }
    proof {
        if has_entry_line(c@, e@) {
            let (i, j) = choose|i: int, j: int| #[trigger] line_matches(c@, e@, i, j);
            assert(line_matches(c@, e@, i, j));
        }
    }
    false
}

/// The new `.gitignore` text that lists `entry`, given the current text
/// (`None` when there is no file), or `None` when it already does.
pub fn gitignore_update(existing: Option<&str>, entry: &str) -> (r: Option<String>)
    ensures
        match r {
            Some(s) => gitignore_after(
                match existing {
                    Some(c) => Some(c@),
                    None => None,
                },
                entry@,
            ) == Some(s@),
            None => gitignore_after(
                match existing {
                    Some(c) => Some(c@),
                    None => None,
                },
                entry@,
            ) is None,
        },
{
    let e = chars_of(entry);
    match existing {
        None => {
            let mut out: Vec<char> = Vec::new();
            push_chars(&mut out, &e);
            push_str(&mut out, "\n");
            Some(string_of(&out))
        },
        Some(content) => {
            let c = chars_of(content);
            if has_line(&c, &e) {
                return None;
            }
            let mut out: Vec<char> = Vec::new();
            push_chars(&mut out, &c);
            if !(c.len() > 0 && c[c.len() - 1] == '\n') {
                push_str(&mut out, "\n");
            }
            push_chars(&mut out, &e);
            push_str(&mut out, "\n");
            proof {
                if c@.len() > 0 {
                    assert(c@.last() == c@[c@.len() - 1]);
                }
            }
            Some(string_of(&out))
        },
    }
}

/// Adding an entry to `.gitignore` is idempotent: once the entry has been
/// added, a second run finds it and writes nothing. This holds for an
/// entry that is a single line with no surrounding whitespace.
pub proof fn lemma_gitignore_idempotent(existing: Option<Seq<char>>, entry: Seq<char>)
    requires
        lacks_char(entry, '\n'),
        trimmed(entry) == entry,
    ensures
        gitignore_after(existing, entry) matches Some(c) ==> gitignore_after(Some(c), entry) is None,
{
    reveal_strlit("\n");
    if let Some(c) = gitignore_after(existing, entry) {
        let head: Seq<char> = match existing {
            None => Seq::empty(),
            Some(x) => if x.len() > 0 && x.last() == '\n' {
                x
            } else {
                x + "\n"@
            },
        };
        assert(c =~= head + entry + "\n"@);
        let i = head.len() as int;
        let j = i + entry.len();
        assert(c.subrange(i, j) =~= entry);
        assert(c[j] == '\n');
        assert forall|k: int| i <= k < j implies c[k] != '\n' by {
            assert(c[k] == entry[k - i]);
        }
        assert(is_line(c, i, j));
        assert(line_matches(c, entry, i, j));
    }
}

// ---------------------------------------------------------------------
// Skills.
// ---------------------------------------------------------------------

/// What happens to one bundled skill file.
#[derive(Clone, Copy, Debug, PartialEq, Eq, Structural)]
pub enum SkillAction {
    /// No file yet: write it.
    Install,
    /// A file exists and `force` is set: replace it.
    Overwrite,
    /// The file already holds the bundled text: nothing to do.
    Unchanged,
    /// The file holds local edits: leave it and say so.
    KeepEdited,
}

/// The action for a skill file, given its current text (`None` when there
/// is no file): a local edit is never replaced without `force`.
pub fn skill_action(existing: Option<&str>, bundled: &str, force: bool) -> (a: SkillAction)
    ensures
        existing is None ==> a == SkillAction::Install,
        existing is Some && force ==> a == SkillAction::Overwrite,
        existing matches Some(c) && !force && c@ == bundled@ ==> a == SkillAction::Unchanged,
        existing matches Some(c) && !force && c@ != bundled@ ==> a == SkillAction::KeepEdited,
{
    match existing {
        None => SkillAction::Install,
        Some(c) => {
            if force {
                SkillAction::Overwrite
            } else if crate::text::same(c, bundled) {
                SkillAction::Unchanged
            } else {
                SkillAction::KeepEdited
            }
        },
    }
}

/// Where a skill's file lives: `<skills_dir>/<slug>/SKILL.md`.
pub fn skill_file(skills_dir: &str, slug: &str) -> (s: String)
    ensures
        s@ == skills_dir@ + "/"@ + slug@ + "/SKILL.md"@,
{
    let mut out: Vec<char> = Vec::new();
    push_str(&mut out, skills_dir);
    push_str(&mut out, "/");
    push_str(&mut out, slug);
    push_str(&mut out, "/SKILL.md");
    string_of(&out)
}

// ---------------------------------------------------------------------
// Cloud registration.
// ---------------------------------------------------------------------

/// The sparse project config that selects the cloud backend for `org`.
pub open spec fn cloud_config_text(org: Seq<char>) -> Seq<char> {
    "backend = \"cloud\"\n\n[cloud]\norg = \""@ + org + "\"\n"@
}

/// The text of `.hm/config.toml` linking the project to `org_slug`.
pub fn cloud_project_config(org_slug: &str) -> (s: String)
    ensures
        s@ == cloud_config_text(org_slug@),
{
    let mut out: Vec<char> = Vec::new();
    push_str(&mut out, "backend = \"cloud\"\n\n[cloud]\norg = \"");
    push_str(&mut out, org_slug);
    push_str(&mut out, "\"\n");
    string_of(&out)
}

/// The choices offered when linking to an organization: first a way out,
/// then each organization as `name (slug)`.
pub fn org_items(orgs: &[(String, String)]) -> (v: Vec<String>)
    ensures
        v@.len() == orgs@.len() + 1,
        v@[0]@ == "No, skip"@,
        forall|i: int| 0 <= i < orgs@.len() ==> #[trigger] v@[i + 1]@ == orgs@[i].0@ + " ("@ + orgs@[i].1@ + ")"@,
{
    let mut v: Vec<String> = Vec::new();
    v.push("No, skip".to_owned());
    let mut i: usize = 0;
    while i < orgs.len()
        invariant
            i <= orgs@.len(),
            v@.len() == i + 1,
            v@[0]@ == "No, skip"@,
            forall|k: int| 0 <= k < i ==> #[trigger] v@[k + 1]@ == orgs@[k].0@ + " ("@ + orgs@[k].1@ + ")"@,
        decreases orgs@.len() - i,
    {
        let mut out: Vec<char> = Vec::new();
        push_str(&mut out, orgs[i].0.as_str());
        push_str(&mut out, " (");
        push_str(&mut out, orgs[i].1.as_str());
        push_str(&mut out, ")");
        v.push(string_of(&out));
        i = i + 1;
    }
    v
}

/// The organization picked from the choices of [`org_items`]: none for
/// the first choice, else the one at `selection - 1`.
pub fn chosen_org(selection: usize, count: usize) -> (r: Option<usize>)
    requires
        selection <= count,
    ensures
        selection == 0 ==> r is None,
        selection > 0 ==> r == Some((selection - 1) as usize),
{
    if selection == 0 {
        None
    } else {
        Some(selection - 1)
    }
}

// ---------------------------------------------------------------------
// Workflow files.
// ---------------------------------------------------------------------

/// The text after the last dot of a file name, when that dot is not its
/// first character.
pub open spec fn extension_of(name: Seq<char>) -> Option<Seq<char>> {
    let i = last_index_of(name, '.');
    if i > 0 {
        Some(name.subrange(i + 1, name.len() as int))
    } else {
        None
    }
}

/// Whether a file name is that of a GitHub Actions workflow: its
/// extension is `yml` or `yaml`.
pub fn is_workflow_file(name: &str) -> (b: bool)
    ensures
        b == (extension_of(name@) == Some("yml"@) || extension_of(name@) == Some("yaml"@)),
{
    let c = chars_of(name);
    match last_index(&c, '.') {
        Some(i) => {
            if i == 0 {
                return false;
            }
            let ext = slice(&c, i + 1, c.len());
            let yml = chars_of("yml");
            let yaml = chars_of("yaml");
            chars_equal(&ext, &yml) || chars_equal(&ext, &yaml)
        },
        None => false,
    }
}

} // verus!
