//! Skills: instruction packages written as a `SKILL.md` text.

use vstd::prelude::*;

use self::error::{SkillError, SkillErrorView};
use self::frontmatter::{
    clone_pairs, frontmatter, lemma_frontmatter_bounded, pairs_view, parse_frontmatter, tools_view, FrontmatterView,
};
use crate::order::{sort_paths, sorted_paths};
use crate::text::{
    as_opt_str, byte_len, byte_len_of, chars_of, concat, concat3, is_str, opt_str_view, opt_view,
    split, split_of, starts_with, starts_with_of, str_eq, views,
};
use vstd::slice::slice_subrange;

pub mod error;
pub mod frontmatter;
pub mod laws;
pub mod load;
pub mod registry;

verus! {

/// A tool that a skill declares it needs: the tool's name and, optionally, the
/// scope of arguments it needs the tool for.
#[derive(Debug, PartialEq, Eq)]
pub struct AllowedTool {
    /// The name the tool is registered under.
    pub name: String,
    /// A prefix of the argument text; a trailing `*` is a wildcard. `None`
    /// leaves the arguments unrestricted.
    pub scope: Option<String>,
}

/// The characters of an [`AllowedTool`].
pub struct AllowedToolView {
    pub name: Seq<char>,
    pub scope: Option<Seq<char>>,
}

impl View for AllowedTool {
    type V = AllowedToolView;

    open spec fn view(&self) -> AllowedToolView {
        AllowedToolView { name: self.name@, scope: opt_view(self.scope) }
    }
}

/// The scope's text without one trailing `*`.
pub open spec fn scope_prefix(scope: Seq<char>) -> Seq<char> {
    if scope.len() > 0 && scope.last() == '*' {
        scope.drop_last()
    } else {
        scope
    }
}

impl AllowedToolView {
    /// A call is permitted when the tool's name is the declared one and the
    /// arguments begin with the scope (up to its wildcard), if there is one.
    pub open spec fn permits(self, tool: Seq<char>, args: Seq<char>) -> bool {
        &&& self.name == tool
        &&& match self.scope {
            Some(scope) => starts_with(args, scope_prefix(scope)),
            None => true,
        }
    }
}

impl AllowedTool {
    /// Whether a call of `tool` with the argument text `args` is within this
    /// declaration.
    pub fn permits(&self, tool: &str, args: &str) -> (r: bool)
        ensures
            r == self@.permits(tool@, args@),
    {
        if !str_eq(self.name.as_str(), tool) {
            return false;
        }
        match &self.scope {
            None => true,
            Some(scope) => {
                let scope = chars_of(scope.as_str());
                let args = chars_of(args);
                let n: usize = scope.len();
                if n > 0 && scope[n - 1] == '*' {
                    let prefix = slice_subrange(&scope, 0, n - 1);
                    assert(prefix@ =~= scope@.drop_last());
                    starts_with_of(&args, prefix)
                } else {
                    starts_with_of(&args, &scope)
                }
            },
        }
    }
}

impl Clone for AllowedTool {
    fn clone(&self) -> (r: AllowedTool)
        ensures
            r@ == self@,
    {
        AllowedTool { name: self.name.clone(), scope: self.scope.clone() }
    }
}

/// The longest body, in characters.
pub const MAX_SKILL_BODY_CHARS: usize = 262144;

/// The longest `SKILL.md`, in bytes.
pub const MAX_SKILL_FILE_BYTES: usize = 1048576;

/// The characters of a skill name.
pub open spec fn is_name_char(c: char) -> bool {
    'a' <= c <= 'z' || '0' <= c <= '9' || c == '-'
}

/// What is wrong with a skill name, if anything.
pub open spec fn name_fault(name: Seq<char>) -> Option<Seq<char>> {
    if name.len() == 0 {
        Some("name must not be empty"@)
    } else if name.len() > 64 {
        Some("name exceeds 64 characters"@)
    } else if exists|i: int| 0 <= i < name.len() && !is_name_char(#[trigger] name[i]) {
        Some("name may only contain lowercase letters, digits, and hyphens"@)
    } else if name[0] == '-' || name.last() == '-' || (exists|i: int|
        0 <= i < name.len() - 1 && #[trigger] name[i] == '-' && name[i + 1] == '-') {
        Some(
            "name is not kebab-case: must not start or end with a hyphen, and must not contain consecutive hyphens"@,
        )
    } else {
        None
    }
}

/// What is wrong with a skill description, if anything.
pub open spec fn description_fault(description: Seq<char>) -> Option<Seq<char>> {
    if description.len() == 0 {
        Some("description must not be empty"@)
    } else if description.len() > 1024 {
        Some("description exceeds 1024 characters"@)
    } else {
        None
    }
}

/// Checks that a skill name is kebab-case and has 1 to 64 characters.
pub fn validate_name(name: &str) -> (r: Result<(), SkillError>)
    ensures
        match r {
            Ok(_) => name_fault(name@) is None,
            Err(e) => name_fault(name@) is Some && e@ == SkillErrorView::InvalidName(
                name_fault(name@)->0,
            ),
        },
{
    let chars = chars_of(name);
    let n: usize = chars.len();
    if n == 0 {
        return Err(SkillError::InvalidName("name must not be empty".to_owned()));
    }
    if n > 64 {
        return Err(SkillError::InvalidName("name exceeds 64 characters".to_owned()));
    }
    let mut doubled = false;
    let mut i: usize = 0;
    while i < n
        invariant
            i <= n,
            n == chars@.len(),
            0 < n <= 64,
            name@ == chars@,
            forall|j: int| 0 <= j < i ==> is_name_char(#[trigger] chars@[j]),
            doubled == exists|j: int|
                0 <= j < i - 1 && #[trigger] chars@[j] == '-' && chars@[j + 1] == '-',
        decreases n - i,
    {
        let c = chars[i];
        if !(('a' <= c && c <= 'z') || ('0' <= c && c <= '9') || c == '-') {
            assert(!is_name_char(name@[i as int]));
            return Err(
                SkillError::InvalidName(
                    "name may only contain lowercase letters, digits, and hyphens".to_owned(),
                ),
            );
        }
        if i > 0 && c == '-' && chars[i - 1] == '-' {
            assert(chars@[i - 1] == '-' && chars@[i - 1 + 1] == '-');
            doubled = true;
        }
        i = i + 1;
    }
    if chars[0] == '-' || chars[n - 1] == '-' || doubled {
        return Err(
            SkillError::InvalidName(
                "name is not kebab-case: must not start or end with a hyphen, and must not contain consecutive hyphens".to_owned(),
            ),
        );
    }
    Ok(())
}

/// Checks that a skill description has 1 to 1024 characters.
pub fn validate_description(description: &str) -> (r: Result<(), SkillError>)
    ensures
        match r {
            Ok(_) => description_fault(description@) is None,
            Err(e) => description_fault(description@) is Some && e@
                == SkillErrorView::InvalidDescription(description_fault(description@)->0),
        },
{
    let n: usize = description.unicode_len();
    if n == 0 {
        return Err(SkillError::InvalidDescription("description must not be empty".to_owned()));
    }
    if n > 1024 {
        return Err(
            SkillError::InvalidDescription("description exceeds 1024 characters".to_owned()),
        );
    }
    Ok(())
}

/// A parsed `SKILL.md`. A value exists only for a valid name, description and
/// body.
#[derive(Debug, PartialEq, Eq)]
pub struct Skill {
    name: String,
    description: String,
    body: String,
    license: Option<String>,
    compatibility: Option<String>,
    metadata: Vec<(String, String)>,
    allowed_tools: Vec<AllowedTool>,
    resources: Vec<String>,
    base_dir: Option<String>,
}

/// The characters of a [`Skill`].
pub struct SkillView {
    pub name: Seq<char>,
    pub description: Seq<char>,
    pub body: Seq<char>,
    pub license: Option<Seq<char>>,
    pub compatibility: Option<Seq<char>>,
    pub metadata: Seq<(Seq<char>, Seq<char>)>,
    pub allowed_tools: Seq<AllowedToolView>,
    pub resources: Seq<Seq<char>>,
    pub base_dir: Option<Seq<char>>,
}

impl View for Skill {
    type V = SkillView;

    closed spec fn view(&self) -> SkillView {
        SkillView {
            name: self.name@,
            description: self.description@,
            body: self.body@,
            license: opt_view(self.license),
            compatibility: opt_view(self.compatibility),
            metadata: pairs_view(self.metadata@),
            allowed_tools: tools_view(self.allowed_tools@),
            resources: views(self.resources@),
            base_dir: opt_view(self.base_dir),
        }
    }
}

impl SkillView {
    /// The limits that every skill keeps.
    pub open spec fn valid(self) -> bool {
        &&& name_fault(self.name) is None
        &&& description_fault(self.description) is None
        &&& self.body.len() <= MAX_SKILL_BODY_CHARS
        &&& self.compatibility matches Some(c) ==> c.len() <= 500
    }

    /// The skill that a frontmatter and a body describe, once the fields that
    /// a skill must have are there.
    pub open spec fn described(
        fm: FrontmatterView,
        name: Seq<char>,
        description: Seq<char>,
        body: Seq<char>,
    ) -> SkillView {
        SkillView {
            name,
            description,
            body,
            license: fm.license,
            compatibility: fm.compatibility,
            metadata: fm.metadata,
            allowed_tools: fm.allowed_tools,
            resources: Seq::empty(),
            base_dir: None,
        }
    }
}

/// The skill that a `SKILL.md` text holds. The frontmatter's faults come
/// first, then those of the name, of the description and of the body.
pub open spec fn skill_of(content: Seq<char>) -> Result<SkillView, SkillErrorView> {
    match frontmatter(content) {
        Err(e) => Err(e),
        Ok((fm, body)) => match fm.name {
            None => Err(SkillErrorView::InvalidName("missing name field"@)),
            Some(name) => match name_fault(name) {
                Some(fault) => Err(SkillErrorView::InvalidName(fault)),
                None => match fm.description {
                    None => Err(SkillErrorView::InvalidDescription("missing description field"@)),
                    Some(description) => match description_fault(description) {
                        Some(fault) => Err(SkillErrorView::InvalidDescription(fault)),
                        None => if body.len() > MAX_SKILL_BODY_CHARS {
                            Err(
                                SkillErrorView::InvalidBody(
                                    "body exceeds size limit (262144 chars)"@,
                                ),
                            )
                        } else {
                            Ok(SkillView::described(fm, name, description, body))
                        },
                    },
                },
            },
        },
    }
}

impl Skill {
    #[verifier::type_invariant]
    closed spec fn well_formed(self) -> bool {
        self@.valid()
    }

    /// Parses a `SKILL.md` text.
    pub fn parse(content: &str) -> (r: Result<Skill, SkillError>)
        ensures
            match r {
                Ok(skill) => skill_of(content@) == Ok::<_, SkillErrorView>(skill@)
                    && skill@.valid(),
                Err(e) => skill_of(content@) == Err::<SkillView, _>(e@),
            },
    {
        let (fm, body) = parse_frontmatter(content)?;
        let name = match fm.name {
            Some(name) => name,
            None => {
                return Err(SkillError::InvalidName("missing name field".to_owned()));
            },
        };
        validate_name(name.as_str())?;
        let description = match fm.description {
            Some(description) => description,
            None => {
                return Err(SkillError::InvalidDescription("missing description field".to_owned()));
            },
        };
        validate_description(description.as_str())?;
        if body.as_str().unicode_len() > MAX_SKILL_BODY_CHARS {
            return Err(
                SkillError::InvalidBody("body exceeds size limit (262144 chars)".to_owned()),
            );
        }
        proof {
            lemma_frontmatter_bounded(content@);
        }
        let resources: Vec<String> = Vec::new();
        assert(views(resources@) =~= Seq::empty());
        Ok(
            Skill {
                name,
                description,
                body,
                license: fm.license,
                compatibility: fm.compatibility,
                metadata: fm.metadata,
                allowed_tools: fm.allowed_tools,
                resources,
                base_dir: None,
            },
        )
    }

    /// The skill that a directory holds, given what the file system said of its
    /// `SKILL.md` and the files it found beside it. `dir` is the directory's
    /// resolved path and `dir_name` its last component.
    pub fn from_dir(
        dir: &str,
        dir_name: &str,
        file: FoundFile,
        resources: Vec<String>,
    ) -> (r: Result<Skill, SkillError>)
        ensures
            match r {
                Ok(skill) => {
                    &&& file matches FoundFile::Text(content) && skill_in(dir_name@, content@)
                        matches Ok(parsed) && skill@ == (SkillView {
                        base_dir: Some(dir@),
                        resources: skill@.resources,
                        ..parsed
                    })
                    &&& sorted_paths(skill@.resources)
                    &&& skill@.resources.to_multiset() == views(resources@).to_multiset()
                },
                Err(e) => match file {
                    FoundFile::RootUnresolved(cause) => e@ == unresolved_root(cause@),
                    FoundFile::Missing => e@ == SkillErrorView::NotFound(
                        "no SKILL.md in directory: "@ + dir@,
                    ),
                    FoundFile::Unreadable(cause) => e@ == SkillErrorView::Io(cause@),
                    FoundFile::Outside => e@ == SkillErrorView::NotFound(
                        "SKILL.md escapes skill root"@,
                    ),
                    FoundFile::Text(content) => skill_in(dir_name@, content@) == Err::<
                        SkillView,
                        _,
                    >(e@),
                },
            },
    {
        let content = match file {
            FoundFile::RootUnresolved(cause) => {
                return Err(
                    SkillError::Io(concat("cannot resolve skill root: ", cause.as_str())),
                );
            },
            FoundFile::Missing => {
                return Err(SkillError::NotFound(concat("no SKILL.md in directory: ", dir)));
            },
            FoundFile::Unreadable(cause) => {
                return Err(SkillError::Io(cause));
            },
            FoundFile::Outside => {
                return Err(SkillError::NotFound("SKILL.md escapes skill root".to_owned()));
            },
            FoundFile::Text(content) => content,
        };
        if byte_len_of(content.as_str()) > MAX_SKILL_FILE_BYTES {
            return Err(
                SkillError::InvalidBody("SKILL.md exceeds size limit (1048576 bytes)".to_owned()),
            );
        }
        let skill = Skill::parse(content.as_str())?;
        if !str_eq(skill.name.as_str(), dir_name) {
            return Err(
                SkillError::NameMismatch { name: skill.name.clone(), dir: dir_name.to_owned() },
            );
        }
        let resources = sort_paths(resources);
        let mut skill = skill;
        skill.resources = resources;
        skill.base_dir = Some(dir.to_owned());
        Ok(skill)
    }

    /// The name, in kebab-case.
    pub fn name(&self) -> (r: &str)
        ensures
            r@ == self@.name,
            name_fault(r@) is None,
    {
        proof {
            use_type_invariant(self);
        }
        self.name.as_str()
    }

    /// What the skill does and when to use it.
    pub fn description(&self) -> (r: &str)
        ensures
            r@ == self@.description,
            description_fault(r@) is None,
    {
        proof {
            use_type_invariant(self);
        }
        self.description.as_str()
    }

    /// The instructions.
    pub fn body(&self) -> (r: &str)
        ensures
            r@ == self@.body,
            r@.len() <= MAX_SKILL_BODY_CHARS,
    {
        proof {
            use_type_invariant(self);
        }
        self.body.as_str()
    }

    /// The license, if the frontmatter names one.
    pub fn license(&self) -> (r: Option<&str>)
        ensures
            opt_str_view(r) == self@.license,
    {
        as_opt_str(&self.license)
    }

    /// What the skill is compatible with, if the frontmatter says so.
    pub fn compatibility(&self) -> (r: Option<&str>)
        ensures
            opt_str_view(r) == self@.compatibility,
    {
        as_opt_str(&self.compatibility)
    }

    /// Metadata in the order of the frontmatter, unknown fields included.
    pub fn metadata(&self) -> (r: &[(String, String)])
        ensures
            pairs_view(r@) == self@.metadata,
    {
        self.metadata.as_slice()
    }

    /// The tools that the skill declares.
    pub fn allowed_tools(&self) -> (r: &[AllowedTool])
        ensures
            tools_view(r@) == self@.allowed_tools,
    {
        self.allowed_tools.as_slice()
    }

    /// The resource files, as paths relative to the skill's directory.
    pub fn resources(&self) -> (r: &[String])
        ensures
            views(r@) == self@.resources,
    {
        self.resources.as_slice()
    }

    /// The skill's directory, when it was loaded from one.
    pub fn base_dir(&self) -> (r: Option<&str>)
        ensures
            opt_str_view(r) == self@.base_dir,
    {
        as_opt_str(&self.base_dir)
    }

    /// Where the resource `name` is to be looked for: the skill's directory,
    /// when there is one and the path stays below it.
    pub fn reference_root(&self, name: &str) -> (r: Result<&str, SkillError>)
        ensures
            match r {
                Ok(dir) => reference_target(self@, name@) == Ok::<_, SkillErrorView>(dir@),
                Err(e) => reference_target(self@, name@) == Err::<Seq<char>, _>(e@),
            },
    {
        match &self.base_dir {
            None => Err(
                SkillError::NotFound("no resource directory: skill parsed from text".to_owned()),
            ),
            Some(dir) => if stays_below_of(name) {
                Ok(dir.as_str())
            } else {
                Err(SkillError::NotFound(concat("invalid resource path: ", name)))
            },
        }
    }

    /// The text of the resource `name`, given what the file system said of it.
    pub fn load_reference(&self, name: &str, file: FoundFile) -> (r: Result<String, SkillError>)
        ensures
            match r {
                Ok(text) => reference_of(self@, name@, file) == Ok::<_, SkillErrorView>(text@),
                Err(e) => reference_of(self@, name@, file) == Err::<Seq<char>, _>(e@),
            },
    {
        self.reference_root(name)?;
        match file {
            FoundFile::RootUnresolved(cause) => Err(
                SkillError::Io(concat("cannot resolve skill root: ", cause.as_str())),
            ),
            FoundFile::Missing => Err(SkillError::NotFound(concat("resource not found: ", name))),
            FoundFile::Unreadable(cause) => Err(SkillError::Io(cause)),
            FoundFile::Outside => Err(
                SkillError::NotFound(concat("resource escapes skill root: ", name)),
            ),
            FoundFile::Text(text) => Ok(text),
        }
    }
}

impl Clone for Skill {
    fn clone(&self) -> (r: Skill)
        ensures
            r@ == self@,
    {
        proof {
            use_type_invariant(self);
        }
        let metadata = clone_pairs(&self.metadata);
        let allowed_tools = self.allowed_tools.clone();
        let resources = self.resources.clone();
        assert(tools_view(allowed_tools@) =~= tools_view(self.allowed_tools@));
        assert(views(resources@) =~= views(self.resources@));
        Skill {
            name: self.name.clone(),
            description: self.description.clone(),
            body: self.body.clone(),
            license: self.license.clone(),
            compatibility: self.compatibility.clone(),
            metadata,
            allowed_tools,
            resources,
            base_dir: self.base_dir.clone(),
        }
    }
}

/// What the file system said of a file below a root directory.
#[derive(Debug, PartialEq, Eq)]
pub enum FoundFile {
    /// The root itself cannot be resolved.
    RootUnresolved(String),
    /// There is no such file.
    Missing,
    /// The file is there and cannot be read.
    Unreadable(String),
    /// The path leads, through a link, to a file outside the root.
    Outside,
    /// The file's text.
    Text(String),
}

pub open spec fn unresolved_root(cause: Seq<char>) -> SkillErrorView {
    SkillErrorView::Io("cannot resolve skill root: "@ + cause)
}

/// The skill in a directory named `dir_name` whose `SKILL.md` has the text
/// `content`.
pub open spec fn skill_in(dir_name: Seq<char>, content: Seq<char>) -> Result<
    SkillView,
    SkillErrorView,
> {
    if byte_len(content) > MAX_SKILL_FILE_BYTES {
        Err(SkillErrorView::InvalidBody("SKILL.md exceeds size limit (1048576 bytes)"@))
    } else {
        match skill_of(content) {
            Err(e) => Err(e),
            Ok(skill) => if skill.name != dir_name {
                Err(SkillErrorView::NameMismatch { name: skill.name, dir: dir_name })
            } else {
                Ok(skill)
            },
        }
    }
}

/// Whether a relative path stays below the directory it starts from: it is not
/// absolute and no component leads upwards.
pub open spec fn stays_below(path: Seq<char>) -> bool {
    &&& !(path.len() > 0 && path[0] == '/')
    &&& forall|i: int|
        0 <= i < split(path, '/').len() ==> #[trigger] split(path, '/')[i] != ".."@
}

fn stays_below_of(path: &str) -> (r: bool)
    ensures
        r == stays_below(path@),
{
    let chars = chars_of(path);
    if chars.len() > 0 && chars[0] == '/' {
        return false;
    }
    let parts = split_of(&chars, '/');
    let mut i: usize = 0;
    while i < parts.len()
        invariant
            i <= parts@.len(),
            parts@.len() == split(path@, '/').len(),
            forall|j: int| 0 <= j < parts@.len() ==> (#[trigger] parts@[j])@ == split(path@, '/')[j],
            forall|j: int| 0 <= j < i ==> #[trigger] split(path@, '/')[j] != ".."@,
        decreases parts@.len() - i,
    {
        if is_str(parts[i], "..") {
            assert(split(path@, '/')[i as int] == ".."@);
            return false;
        }
        i = i + 1;
    }
    true
}

/// The directory that a resource is read from.
pub open spec fn reference_target(skill: SkillView, name: Seq<char>) -> Result<
    Seq<char>,
    SkillErrorView,
> {
    match skill.base_dir {
        None => Err(SkillErrorView::NotFound("no resource directory: skill parsed from text"@)),
        Some(dir) => if stays_below(name) {
            Ok(dir)
        } else {
            Err(SkillErrorView::NotFound("invalid resource path: "@ + name))
        },
    }
}

/// The text of a resource.
pub open spec fn reference_of(skill: SkillView, name: Seq<char>, file: FoundFile) -> Result<
    Seq<char>,
    SkillErrorView,
> {
    match reference_target(skill, name) {
        Err(e) => Err(e),
        Ok(_) => match file {
            FoundFile::RootUnresolved(cause) => Err(unresolved_root(cause@)),
            FoundFile::Missing => Err(SkillErrorView::NotFound("resource not found: "@ + name)),
            FoundFile::Unreadable(cause) => Err(SkillErrorView::Io(cause@)),
            FoundFile::Outside => Err(
                SkillErrorView::NotFound("resource escapes skill root: "@ + name),
            ),
            FoundFile::Text(text) => Ok(text@),
        },
    }
}

/// A skill that came from a text alone has no resources to read.
pub proof fn law_text_skill_has_no_resources(content: Seq<char>, name: Seq<char>, file: FoundFile)
    requires
        skill_of(content) is Ok,
    ensures
        reference_of(skill_of(content)->Ok_0, name, file) == Err::<Seq<char>, _>(
            SkillErrorView::NotFound("no resource directory: skill parsed from text"@),
        ),
        skill_of(content)->Ok_0.resources.len() == 0,
{
}

/// A parsed skill keeps every limit on its fields.
pub proof fn law_parsed_skill_is_valid(content: Seq<char>)
    ensures
        skill_of(content) matches Ok(skill) ==> skill.valid(),
{
    lemma_frontmatter_bounded(content);
}

/// A declaration without a scope permits every argument of its tool, and the
/// scope `*` does the same.
pub proof fn law_open_scope_permits_everything(
    name: Seq<char>,
    args: Seq<char>,
    scope: Option<Seq<char>>,
)
    requires
        scope matches Some(s) ==> s == seq!['*'],
    ensures
        (AllowedToolView { name, scope }).permits(name, args),
{
    if let Some(s) = scope {
        assert(s.drop_last() =~= Seq::<char>::empty());
        assert(args.take(0) =~= Seq::<char>::empty());
    }
}

/// Permission goes by the beginning of the arguments: what is permitted stays
/// permitted when more text follows.
pub proof fn law_permits_is_prefix_closed(
    tool: AllowedToolView,
    name: Seq<char>,
    args: Seq<char>,
    more: Seq<char>,
)
    requires
        tool.permits(name, args),
    ensures
        tool.permits(name, args + more),
{
    if let Some(scope) = tool.scope {
        let p = scope_prefix(scope);
        assert((args + more).take(p.len() as int) =~= args.take(p.len() as int));
    }
}

/// One line of the resource list per resource.
pub open spec fn resource_lines(resources: Seq<Seq<char>>) -> Seq<char>
    decreases resources.len(),
{
    if resources.len() == 0 {
        Seq::empty()
    } else {
        resource_lines(resources.drop_last()) + "\n  <file>"@ + resources.last() + "</file>"@
    }
}

/// A skill as it is handed to the model: the body between tags that name the
/// skill, and the resources that can be read.
pub open spec fn skill_content(skill: SkillView) -> Seq<char> {
    let note = if skill.base_dir is Some {
        "\n\nRelative paths in this skill are relative to the skill directory."@
    } else {
        Seq::empty()
    };
    let listing = if skill.resources.len() > 0 {
        "\n\n<skill_resources>"@ + resource_lines(skill.resources) + "\n</skill_resources>"@
    } else {
        Seq::empty()
    };
    "<skill_content name=\""@ + skill.name + "\">\n"@ + skill.body + note + listing
        + "\n</skill_content>"@
}

/// Wraps a skill's body for the model.
pub fn format_skill_content(skill: &Skill) -> (r: String)
    ensures
        r@ == skill_content(skill@),
{
    let mut out = concat3("<skill_content name=\"", skill.name.as_str(), "\">\n");
    out.append(skill.body.as_str());
    let ghost head = out@;
    if skill.base_dir.is_some() {
        out.append("\n\nRelative paths in this skill are relative to the skill directory.");
    }
    let ghost noted = out@;
    assert(skill.base_dir is None ==> noted =~= head + Seq::<char>::empty());
    if skill.resources.len() > 0 {
        out.append("\n\n<skill_resources>");
        let ghost start = out@;
        let ghost names = views(skill.resources@);
        let mut i: usize = 0;
        assert(names.take(0) =~= Seq::empty());
        assert(start =~= start + Seq::<char>::empty());
        while i < skill.resources.len()
            invariant
                i <= skill.resources@.len(),
                names == views(skill.resources@),
                out@ == start + resource_lines(names.take(i as int)),
            decreases skill.resources@.len() - i,
        {
            assert(names.take(i + 1).drop_last() =~= names.take(i as int));
            assert(names.take(i + 1).last() == skill.resources@[i as int]@);
            out.append("\n  <file>");
            out.append(skill.resources[i].as_str());
            out.append("</file>");
            assert(out@ =~= start + resource_lines(names.take(i + 1)));
            i = i + 1;
        }
        assert(names.take(i as int) =~= names);
        out.append("\n</skill_resources>");
        assert(out@ =~= noted + ("\n\n<skill_resources>"@ + resource_lines(names)
            + "\n</skill_resources>"@));
    } else {
        assert(out@ =~= noted + Seq::<char>::empty());
    }
    out.append("\n</skill_content>");
    out
}

} // verus!
