//! The frontmatter of a `SKILL.md`: the key-value head between two `---`
//! lines, in a small subset of YAML.

use vstd::prelude::*;
use vstd::slice::slice_subrange;

use super::error::{SkillError, SkillErrorView};
use super::{AllowedTool, AllowedToolView};
use crate::text::{
    after, after_of, before, before_of, chars_of, concat, is_str, lemma_position, opt_view,
    position, position_of, skip_newlines, skip_newlines_of, split, split_of, starts_with,
    starts_with_of, string_of, trim, trim_of, words, words_of,
};

verus! {

/// What the frontmatter's lines say, before the required fields are checked.
#[derive(Debug, PartialEq, Eq)]
pub struct Frontmatter {
    pub name: Option<String>,
    pub description: Option<String>,
    pub license: Option<String>,
    pub compatibility: Option<String>,
    pub metadata: Vec<(String, String)>,
    pub allowed_tools: Vec<AllowedTool>,
}

/// The characters of a [`Frontmatter`].
pub struct FrontmatterView {
    pub name: Option<Seq<char>>,
    pub description: Option<Seq<char>>,
    pub license: Option<Seq<char>>,
    pub compatibility: Option<Seq<char>>,
    pub metadata: Seq<(Seq<char>, Seq<char>)>,
    pub allowed_tools: Seq<AllowedToolView>,
}

pub open spec fn pairs_view(pairs: Seq<(String, String)>) -> Seq<(Seq<char>, Seq<char>)> {
    pairs.map_values(|p: (String, String)| (p.0@, p.1@))
}

pub open spec fn tools_view(tools: Seq<AllowedTool>) -> Seq<AllowedToolView> {
    tools.map_values(|t: AllowedTool| t@)
}

pub(crate) fn clone_pairs(pairs: &Vec<(String, String)>) -> (r: Vec<(String, String)>)
    ensures
        pairs_view(r@) == pairs_view(pairs@),
{
    let mut out: Vec<(String, String)> = Vec::new();
    let mut i: usize = 0;
    while i < pairs.len()
        invariant
            i <= pairs@.len(),
            pairs_view(out@) =~= pairs_view(pairs@).take(i as int),
        decreases pairs@.len() - i,
    {
        let ghost prev = out@;
        let key = pairs[i].0.clone();
        let value = pairs[i].1.clone();
        out.push((key, value));
        assert(pairs_view(out@) =~= pairs_view(prev).push((key@, value@)));
        assert(pairs_view(pairs@)[i as int] == (key@, value@));
        i = i + 1;
    }
    out
}

impl View for Frontmatter {
    type V = FrontmatterView;

    open spec fn view(&self) -> FrontmatterView {
        FrontmatterView {
            name: opt_view(self.name),
            description: opt_view(self.description),
            license: opt_view(self.license),
            compatibility: opt_view(self.compatibility),
            metadata: pairs_view(self.metadata@),
            allowed_tools: tools_view(self.allowed_tools@),
        }
    }
}

/// The block that indented lines belong to.
#[derive(Debug, Clone, Copy, PartialEq, Eq, Structural)]
pub enum Block {
    /// None.
    TopLevel,
    /// `metadata:`, whose lines are `key: value` pairs.
    Metadata,
    /// `allowed-tools:`, whose lines are `- entry` items.
    AllowedTools,
}

/// The characters of a field name.
pub open spec fn is_key_char(c: char) -> bool {
    'a' <= c <= 'z' || 'A' <= c <= 'Z' || '0' <= c <= '9' || c == '-' || c == '_'
}

/// A `key: value` line; the value is absent when there is nothing behind the
/// colon.
pub open spec fn key_value(line: Seq<char>) -> Result<
    (Seq<char>, Option<Seq<char>>),
    SkillErrorView,
> {
    let key = trim(before(line, ':'));
    let value = trim(after(line, ':'));
    if !line.contains(':') {
        Err(SkillErrorView::InvalidFrontmatter("frontmatter line missing colon: "@ + line))
    } else if key.len() == 0 {
        Err(SkillErrorView::InvalidFrontmatter("frontmatter line missing field name"@))
    } else if exists|i: int| 0 <= i < key.len() && !is_key_char(#[trigger] key[i]) {
        Err(SkillErrorView::InvalidFrontmatter("invalid field name: "@ + key))
    } else {
        Ok(
            (
                key,
                if value.len() == 0 {
                    None
                } else {
                    Some(value)
                },
            ),
        )
    }
}

/// Whether `s` begins and ends with the quote `q` (two quotes, not one).
pub open spec fn quoted_by(s: Seq<char>, q: char) -> bool {
    s.len() >= 2 && s[0] == q && s.last() == q
}

/// A value without the quotes around it; everything else stays as written.
pub open spec fn unquoted(value: Seq<char>) -> Seq<char> {
    let v = trim(value);
    if quoted_by(v, '"') || quoted_by(v, '\'') {
        v.subrange(1, v.len() - 1)
    } else {
        v
    }
}

pub open spec fn invalid_entry(item: Seq<char>) -> SkillErrorView {
    SkillErrorView::InvalidFrontmatter("invalid allowed-tools entry: "@ + item)
}

/// An entry of `allowed-tools`: `name` or `name(scope)`.
pub open spec fn tool_entry(item: Seq<char>) -> Result<AllowedToolView, SkillErrorView> {
    let inside = after(item, '(');
    let name = trim(before(item, '('));
    if item.contains('(') {
        if item.last() != ')' || inside.contains('(') {
            Err(invalid_entry(item))
        } else if name.len() == 0 {
            Err(
                SkillErrorView::InvalidFrontmatter(
                    "allowed-tools entry missing tool name: "@ + item,
                ),
            )
        } else {
            let scope = trim(inside.drop_last());
            Ok(
                AllowedToolView {
                    name,
                    scope: if scope.len() == 0 {
                        None
                    } else {
                        Some(scope)
                    },
                },
            )
        }
    } else if item.contains(')') || item.contains('[') || item.contains(']') || item.contains(',') {
        Err(invalid_entry(item))
    } else if item.len() == 0 {
        Err(SkillErrorView::InvalidFrontmatter("empty allowed-tools entry"@))
    } else {
        Ok(AllowedToolView { name: item, scope: None })
    }
}

/// The entries of a list, each trimmed; the first entry that is wrong decides
/// the error.
pub open spec fn tool_entries(items: Seq<Seq<char>>) -> Result<
    Seq<AllowedToolView>,
    SkillErrorView,
>
    decreases items.len(),
{
    if items.len() == 0 {
        Ok(Seq::empty())
    } else {
        match tool_entries(items.drop_last()) {
            Err(e) => Err(e),
            Ok(tools) => match tool_entry(trim(items.last())) {
                Err(e) => Err(e),
                Ok(tool) => Ok(tools.push(tool)),
            },
        }
    }
}

/// The value of `allowed-tools`: words, or a list in square brackets with
/// commas.
pub open spec fn inline_tools(value: Seq<char>) -> Result<Seq<AllowedToolView>, SkillErrorView> {
    let v = trim(value);
    if v.len() > 0 && v[0] == '[' {
        if v.len() >= 2 && v.last() == ']' {
            tool_entries(split(v.subrange(1, v.len() - 1), ','))
        } else {
            Err(
                SkillErrorView::InvalidFrontmatter(
                    "allowed-tools flow list has unbalanced brackets: "@ + v,
                ),
            )
        }
    } else {
        tool_entries(words(v))
    }
}

/// An absent value counts as an empty one.
pub open spec fn or_empty(value: Option<Seq<char>>) -> Seq<char> {
    match value {
        Some(v) => v,
        None => Seq::empty(),
    }
}

impl FrontmatterView {
    pub open spec fn empty() -> FrontmatterView {
        FrontmatterView {
            name: None,
            description: None,
            license: None,
            compatibility: None,
            metadata: Seq::empty(),
            allowed_tools: Seq::empty(),
        }
    }

    pub open spec fn with_tools(self, tools: Seq<AllowedToolView>) -> FrontmatterView {
        FrontmatterView { allowed_tools: self.allowed_tools + tools, ..self }
    }

    pub open spec fn with_metadata(self, key: Seq<char>, value: Seq<char>) -> FrontmatterView {
        FrontmatterView { metadata: self.metadata.push((key, value)), ..self }
    }

    /// What an indented line (already trimmed) adds inside `block`: items
    /// belong to `allowed-tools`, pairs to `metadata`. Nothing else nests: a
    /// list under another field is an error.
    pub open spec fn indented(self, block: Block, line: Seq<char>) -> Result<
        FrontmatterView,
        SkillErrorView,
    > {
        let item = starts_with(line, "- "@);
        if block == Block::AllowedTools && item {
            match tool_entry(trim(line.skip(2))) {
                Err(e) => Err(e),
                Ok(tool) => Ok(self.with_tools(seq![tool])),
            }
        } else if block == Block::Metadata && item {
            Err(SkillErrorView::InvalidFrontmatter("metadata does not support nested lists"@))
        } else if block == Block::Metadata {
            match key_value(line) {
                Err(e) => Err(e),
                Ok((key, value)) => Ok(self.with_metadata(key, unquoted(or_empty(value)))),
            }
        } else {
            Err(SkillErrorView::InvalidFrontmatter("unsupported nested structure: "@ + line))
        }
    }

    /// What a top-level field says; an unknown field becomes metadata.
    pub open spec fn field(self, key: Seq<char>, value: Option<Seq<char>>) -> Result<
        (FrontmatterView, Block),
        SkillErrorView,
    > {
        let text = or_empty(value);
        if key == "name"@ {
            Ok((FrontmatterView { name: Some(text), ..self }, Block::TopLevel))
        } else if key == "description"@ {
            Ok((FrontmatterView { description: Some(text), ..self }, Block::TopLevel))
        } else if key == "license"@ {
            Ok((FrontmatterView { license: Some(text), ..self }, Block::TopLevel))
        } else if key == "compatibility"@ {
            if text.len() > 500 {
                Err(SkillErrorView::InvalidFrontmatter("compatibility exceeds 500 characters"@))
            } else {
                Ok((FrontmatterView { compatibility: Some(text), ..self }, Block::TopLevel))
            }
        } else if key == "allowed-tools"@ {
            match value {
                None => Ok((self, Block::AllowedTools)),
                Some(v) => match inline_tools(v) {
                    Err(e) => Err(e),
                    Ok(tools) => Ok((self.with_tools(tools), Block::AllowedTools)),
                },
            }
        } else if key == "metadata"@ {
            if value is Some {
                Err(
                    SkillErrorView::InvalidFrontmatter(
                        "metadata value must be a key-value block (inline form is not supported)"@,
                    ),
                )
            } else {
                Ok((self, Block::Metadata))
            }
        } else {
            Ok((self.with_metadata(key, text), Block::TopLevel))
        }
    }

    /// What one line of the head says, and the block that follows it.
    pub open spec fn line(self, block: Block, line: Seq<char>) -> Result<
        (FrontmatterView, Block),
        SkillErrorView,
    > {
        let trimmed = trim(line);
        if trimmed.len() == 0 || trimmed[0] == '#' {
            Ok((self, block))
        } else if line[0] == ' ' || line[0] == '\t' {
            match self.indented(block, trimmed) {
                Err(e) => Err(e),
                Ok(fm) => Ok((fm, block)),
            }
        } else {
            match key_value(trimmed) {
                Err(e) => Err(e),
                Ok((key, value)) => self.field(
                    key,
                    match value {
                        Some(v) => Some(unquoted(v)),
                        None => None,
                    },
                ),
            }
        }
    }
}

/// The names of the fields that have a meaning of their own.
pub open spec fn is_known_field(key: Seq<char>) -> bool {
    ||| key == "name"@
    ||| key == "description"@
    ||| key == "license"@
    ||| key == "compatibility"@
    ||| key == "allowed-tools"@
    ||| key == "metadata"@
}

/// A top-level field that is not known is no error: it joins the metadata, as
/// text, behind what is there.
pub proof fn law_unknown_fields_become_metadata(
    fm: FrontmatterView,
    block: Block,
    line: Seq<char>,
    key: Seq<char>,
    value: Option<Seq<char>>,
)
    requires
        trim(line).len() > 0 && trim(line)[0] != '#',
        line[0] != ' ' && line[0] != '\t',
        key_value(trim(line)) == Ok::<(Seq<char>, Option<Seq<char>>), SkillErrorView>((key, value)),
        !is_known_field(key),
    ensures
        fm.line(block, line) matches Ok((after, next)) && next == Block::TopLevel && after == (
        FrontmatterView {
            metadata: fm.metadata.push(
                (
                    key,
                    match value {
                        Some(v) => unquoted(v),
                        None => Seq::empty(),
                    },
                ),
            ),
            ..fm
        }),
{
}

/// Only an `allowed-tools` block grants tools: an indented line in any other
/// place leaves the allowed tools as they are, and outside of both blocks it is
/// an error.
pub proof fn law_only_allowed_tools_grant_tools(
    fm: FrontmatterView,
    block: Block,
    line: Seq<char>,
)
    requires
        block != Block::AllowedTools,
    ensures
        fm.indented(block, line) matches Ok(after) ==> after.allowed_tools == fm.allowed_tools,
        block == Block::TopLevel ==> fm.indented(block, line) == Err::<FrontmatterView, _>(
            SkillErrorView::InvalidFrontmatter("unsupported nested structure: "@ + line),
        ),
{
}

/// The lines of `rest` up to the closing `---`, taken into `fm` one by one,
/// and the body behind it (without one blank line between).
pub open spec fn head_and_body(rest: Seq<char>, fm: FrontmatterView, block: Block) -> Result<
    (FrontmatterView, Seq<char>),
    SkillErrorView,
>
    decreases rest.len(),
{
    let line = before(rest, '\n');
    let tail = after(rest, '\n');
    if trim(line) == "---"@ {
        Ok(
            (
                fm,
                if tail.len() > 0 && tail[0] == '\n' {
                    tail.skip(1)
                } else {
                    tail
                },
            ),
        )
    } else if tail.len() == 0 {
        Err(SkillErrorView::InvalidFrontmatter("missing frontmatter end delimiter ---"@))
    } else {
        match fm.line(block, line) {
            Err(e) => Err(e),
            Ok((fm, block)) => head_and_body(tail, fm, block),
        }
    }
}

/// The text without a byte order mark and without leading line breaks.
pub open spec fn without_prefix(content: Seq<char>) -> Seq<char> {
    skip_newlines(
        if content.len() > 0 && content[0] == '\u{feff}' {
            content.skip(1)
        } else {
            content
        },
    )
}

/// A whole `SKILL.md`: its frontmatter and its body.
pub open spec fn frontmatter(content: Seq<char>) -> Result<
    (FrontmatterView, Seq<char>),
    SkillErrorView,
> {
    let text = without_prefix(content);
    let rest = text.skip(3);
    if !starts_with(text, "---"@) {
        Err(SkillErrorView::InvalidFrontmatter("missing frontmatter start delimiter ---"@))
    } else if trim(before(rest, '\n')).len() > 0 {
        Err(
            SkillErrorView::InvalidFrontmatter(
                "start delimiter --- must be followed by a newline"@,
            ),
        )
    } else {
        head_and_body(after(rest, '\n'), FrontmatterView::empty(), Block::TopLevel)
    }
}

impl FrontmatterView {
    /// The frontmatter keeps the limit on `compatibility`.
    pub open spec fn bounded(self) -> bool {
        self.compatibility matches Some(c) ==> c.len() <= 500
    }
}

proof fn lemma_head_bounded(rest: Seq<char>, fm: FrontmatterView, block: Block)
    requires
        fm.bounded(),
    ensures
        head_and_body(rest, fm, block) matches Ok((out, _)) ==> out.bounded(),
    decreases rest.len(),
{
    let line = before(rest, '\n');
    let tail = after(rest, '\n');
    if trim(line) != "---"@ && tail.len() > 0 {
        match fm.line(block, line) {
            Err(_) => {},
            Ok((next, block)) => {
                lemma_head_bounded(tail, next, block);
            },
        }
    }
}

/// A `compatibility` field that was accepted has at most 500 characters.
pub proof fn lemma_frontmatter_bounded(content: Seq<char>)
    ensures
        frontmatter(content) matches Ok((fm, _)) ==> fm.bounded(),
{
    let rest = without_prefix(content).skip(3);
    lemma_head_bounded(after(rest, '\n'), FrontmatterView::empty(), Block::TopLevel);
}

fn invalid(message: &str) -> (e: SkillError)
    ensures
        e@ == SkillErrorView::InvalidFrontmatter(message@),
{
    SkillError::InvalidFrontmatter(message.to_owned())
}

fn invalid_with(message: &str, text: &[char]) -> (e: SkillError)
    ensures
        e@ == SkillErrorView::InvalidFrontmatter(message@ + text@),
{
    SkillError::InvalidFrontmatter(concat(message, string_of(text).as_str()))
}

fn text_or_empty(value: Option<String>) -> (r: String)
    ensures
        r@ == or_empty(opt_view(value)),
{
    match value {
        Some(v) => v,
        None => String::new(),
    }
}

fn has_char(s: &[char], c: char) -> (r: bool)
    ensures
        r == s@.contains(c),
        r == (position(s@, c) < s@.len()),
{
    let p: usize = position_of(s, c);
    proof {
        lemma_position(s@, c);
        if p == s@.len() && s@.contains(c) {
            let i = choose|i: int| 0 <= i < s@.len() && s@[i] == c;
            assert(s@[i] != c);
        }
    }
    p < s.len()
}

/// Splits a `key: value` line.
pub fn split_kv<'a>(line: &'a [char]) -> (r: Result<(&'a [char], Option<&'a [char]>), SkillError>)
    ensures
        match r {
            Ok((key, value)) => key_value(line@) == Ok::<_, SkillErrorView>(
                (
                    key@,
                    match value {
                        Some(v) => Some(v@),
                        None => None,
                    },
                ),
            ),
            Err(e) => key_value(line@) == Err::<(Seq<char>, Option<Seq<char>>), _>(e@),
        },
{
    if !has_char(line, ':') {
        return Err(invalid_with("frontmatter line missing colon: ", line));
    }
    let key = trim_of(before_of(line, ':'));
    if key.len() == 0 {
        return Err(invalid("frontmatter line missing field name"));
    }
    let mut i: usize = 0;
    while i < key.len()
        invariant
            i <= key@.len(),
            line@.contains(':'),
            key@ == trim(before(line@, ':')),
            key@.len() > 0,
            forall|j: int| 0 <= j < i ==> is_key_char(#[trigger] key@[j]),
        decreases key@.len() - i,
    {
        let c = key[i];
        if !(('a' <= c && c <= 'z') || ('A' <= c && c <= 'Z') || ('0' <= c && c <= '9') || c == '-'
            || c == '_') {
            assert(!is_key_char(key@[i as int]));
            return Err(invalid_with("invalid field name: ", key));
        }
        i = i + 1;
    }
    let value = trim_of(after_of(line, ':'));
    Ok(
        (
            key,
            if value.len() == 0 {
                None
            } else {
                Some(value)
            },
        ),
    )
}

fn is_quoted_by(s: &[char], q: char) -> (r: bool)
    ensures
        r == quoted_by(s@, q),
{
    let n: usize = s.len();
    n >= 2 && s[0] == q && s[n - 1] == q
}

/// Strips matching quotes around a value.
pub fn stringify(value: &[char]) -> (r: String)
    ensures
        r@ == unquoted(value@),
{
    let v = trim_of(value);
    if is_quoted_by(v, '"') || is_quoted_by(v, '\'') {
        string_of(slice_subrange(v, 1, v.len() - 1))
    } else {
        string_of(v)
    }
}

/// Parses one entry of `allowed-tools`.
pub fn parse_allowed_tool(item: &[char]) -> (r: Result<AllowedTool, SkillError>)
    ensures
        match r {
            Ok(tool) => tool_entry(item@) == Ok::<_, SkillErrorView>(tool@),
            Err(e) => tool_entry(item@) == Err::<AllowedToolView, _>(e@),
        },
{
    if has_char(item, '(') {
        let inside = after_of(item, '(');
        if item[item.len() - 1] != ')' || has_char(inside, '(') {
            return Err(invalid_with("invalid allowed-tools entry: ", item));
        }
        proof {
            lemma_position(item@, '(');
            assert(inside@.len() > 0);
        }
        let name = trim_of(before_of(item, '('));
        if name.len() == 0 {
            return Err(invalid_with("allowed-tools entry missing tool name: ", item));
        }
        let scope = trim_of(slice_subrange(inside, 0, inside.len() - 1));
        assert(inside@.subrange(0, inside@.len() - 1) =~= inside@.drop_last());
        Ok(
            AllowedTool {
                name: string_of(name),
                scope: if scope.len() == 0 {
                    None
                } else {
                    Some(string_of(scope))
                },
            },
        )
    } else if has_char(item, ')') || has_char(item, '[') || has_char(item, ']') || has_char(
        item,
        ',',
    ) {
        Err(invalid_with("invalid allowed-tools entry: ", item))
    } else if item.len() == 0 {
        Err(invalid("empty allowed-tools entry"))
    } else {
        Ok(AllowedTool { name: string_of(item), scope: None })
    }
}

fn parse_entries(items: &Vec<&[char]>, Ghost(texts): Ghost<Seq<Seq<char>>>) -> (r: Result<
    Vec<AllowedTool>,
    SkillError,
>)
    requires
        texts.len() == items@.len(),
        forall|i: int| 0 <= i < texts.len() ==> (#[trigger] items@[i])@ == texts[i],
    ensures
        match r {
            Ok(tools) => tool_entries(texts) == Ok::<_, SkillErrorView>(tools_view(tools@)),
            Err(e) => tool_entries(texts) == Err::<Seq<AllowedToolView>, _>(e@),
        },
{
    let mut tools: Vec<AllowedTool> = Vec::new();
    assert(tools_view(tools@) =~= Seq::empty());
    let mut i: usize = 0;
    while i < items.len()
        invariant
            i <= items@.len(),
            texts.len() == items@.len(),
            forall|j: int| 0 <= j < texts.len() ==> (#[trigger] items@[j])@ == texts[j],
            tool_entries(texts.take(i as int)) == Ok::<_, SkillErrorView>(tools_view(tools@)),
        decreases items@.len() - i,
    {
        let ghost head = texts.take(i + 1);
        assert(head.drop_last() =~= texts.take(i as int));
        assert(head.last() == texts[i as int]);
        match parse_allowed_tool(trim_of(items[i])) {
            Err(e) => {
                proof {
                    lemma_entries_error(texts, i + 1, e@);
                }
                return Err(e);
            },
            Ok(tool) => {
                let ghost old_tools = tools@;
                tools.push(tool);
                assert(tools_view(tools@) =~= tools_view(old_tools).push(tool@));
            },
        }
        i = i + 1;
    }
    assert(texts.take(i as int) =~= texts);
    Ok(tools)
}

/// An error in the first entries is the list's error.
proof fn lemma_entries_error(items: Seq<Seq<char>>, n: int, e: SkillErrorView)
    requires
        0 <= n <= items.len(),
        tool_entries(items.take(n)) == Err::<Seq<AllowedToolView>, _>(e),
    ensures
        tool_entries(items) == Err::<Seq<AllowedToolView>, _>(e),
    decreases items.len() - n,
{
    if n == items.len() {
        assert(items.take(n) =~= items);
    } else {
        assert(items.take(n + 1).drop_last() =~= items.take(n));
        lemma_entries_error(items, n + 1, e);
    }
}

fn parse_inline_tools(value: &[char]) -> (r: Result<Vec<AllowedTool>, SkillError>)
    ensures
        match r {
            Ok(tools) => inline_tools(value@) == Ok::<_, SkillErrorView>(tools_view(tools@)),
            Err(e) => inline_tools(value@) == Err::<Seq<AllowedToolView>, _>(e@),
        },
{
    let v = trim_of(value);
    let n: usize = v.len();
    if n > 0 && v[0] == '[' {
        if n >= 2 && v[n - 1] == ']' {
            let inner = slice_subrange(v, 1, n - 1);
            let items = split_of(inner, ',');
            parse_entries(&items, Ghost(split(inner@, ',')))
        } else {
            Err(invalid_with("allowed-tools flow list has unbalanced brackets: ", v))
        }
    } else {
        let items = words_of(v);
        parse_entries(&items, Ghost(words(v@)))
    }
}

impl Frontmatter {
    fn add_tools(&mut self, tools: Vec<AllowedTool>)
        ensures
            final(self)@ == old(self)@.with_tools(tools_view(tools@)),
    {
        let mut tools = tools;
        let ghost added = tools@;
        let ghost before = self.allowed_tools@;
        self.allowed_tools.append(&mut tools);
        assert(tools_view(self.allowed_tools@) =~= tools_view(before) + tools_view(added));
    }

    fn add_metadata(&mut self, key: String, value: String)
        ensures
            final(self)@ == old(self)@.with_metadata(key@, value@),
    {
        let ghost before = self.metadata@;
        self.metadata.push((key, value));
        assert(pairs_view(self.metadata@) =~= pairs_view(before).push((key@, value@)));
    }

    fn indented_line(&mut self, block: Block, line: &[char]) -> (r: Result<(), SkillError>)
        ensures
            match r {
                Ok(_) => old(self)@.indented(block, line@) == Ok::<_, SkillErrorView>(
                    final(self)@,
                ),
                Err(e) => old(self)@.indented(block, line@) == Err::<FrontmatterView, _>(e@),
            },
    {
        let dash = chars_of("- ");
        proof {
            reveal_strlit("- ");
        }
        let item = starts_with_of(line, &dash);
        if block == Block::AllowedTools && item {
            let tool = parse_allowed_tool(trim_of(slice_subrange(line, 2, line.len())))?;
            let ghost view = tool@;
            let mut tools: Vec<AllowedTool> = Vec::new();
            tools.push(tool);
            assert(tools_view(tools@) =~= seq![view]);
            self.add_tools(tools);
            Ok(())
        } else if block == Block::Metadata && item {
            Err(invalid("metadata does not support nested lists"))
        } else if block == Block::Metadata {
            let (key, value) = split_kv(line)?;
            let text = match value {
                Some(v) => stringify(v),
                None => {
                    let none: Vec<char> = Vec::new();
                    stringify(&none)
                },
            };
            self.add_metadata(string_of(key), text);
            Ok(())
        } else {
            Err(invalid_with("unsupported nested structure: ", line))
        }
    }

    fn top_level_field(&mut self, key: &[char], value: Option<String>) -> (r: Result<
        Block,
        SkillError,
    >)
        ensures
            match r {
                Ok(block) => old(self)@.field(key@, opt_view(value)) == Ok::<_, SkillErrorView>(
                    (final(self)@, block),
                ),
                Err(e) => old(self)@.field(key@, opt_view(value)) == Err::<
                    (FrontmatterView, Block),
                    _,
                >(e@),
            },
    {
        if is_str(key, "name") {
            self.name = Some(text_or_empty(value));
            Ok(Block::TopLevel)
        } else if is_str(key, "description") {
            self.description = Some(text_or_empty(value));
            Ok(Block::TopLevel)
        } else if is_str(key, "license") {
            self.license = Some(text_or_empty(value));
            Ok(Block::TopLevel)
        } else if is_str(key, "compatibility") {
            let text = text_or_empty(value);
            if text.as_str().unicode_len() > 500 {
                return Err(invalid("compatibility exceeds 500 characters"));
            }
            self.compatibility = Some(text);
            Ok(Block::TopLevel)
        } else if is_str(key, "allowed-tools") {
            if let Some(v) = value {
                let v = chars_of(v.as_str());
                let tools = parse_inline_tools(&v)?;
                self.add_tools(tools);
            }
            Ok(Block::AllowedTools)
        } else if is_str(key, "metadata") {
            if value.is_some() {
                return Err(
                    invalid(
                        "metadata value must be a key-value block (inline form is not supported)",
                    ),
                );
            }
            Ok(Block::Metadata)
        } else {
            self.add_metadata(string_of(key), text_or_empty(value));
            Ok(Block::TopLevel)
        }
    }

    fn head_line(&mut self, block: Block, line: &[char]) -> (r: Result<Block, SkillError>)
        ensures
            match r {
                Ok(next) => old(self)@.line(block, line@) == Ok::<_, SkillErrorView>(
                    (final(self)@, next),
                ),
                Err(e) => old(self)@.line(block, line@) == Err::<(FrontmatterView, Block), _>(e@),
            },
    {
        let trimmed = trim_of(line);
        if trimmed.len() == 0 || trimmed[0] == '#' {
            return Ok(block);
        }
        proof {
            lemma_trim_nonempty(line@);
        }
        if line[0] == ' ' || line[0] == '\t' {
            self.indented_line(block, trimmed)?;
            Ok(block)
        } else {
            let (key, value) = split_kv(trimmed)?;
            let value = match value {
                Some(v) => Some(stringify(v)),
                None => None,
            };
            self.top_level_field(key, value)
        }
    }
}

proof fn lemma_trim_nonempty(s: Seq<char>)
    requires
        trim(s).len() > 0,
    ensures
        s.len() > 0,
{
}

/// Parses the frontmatter of a `SKILL.md` and cuts off the body behind it.
pub fn parse_frontmatter(content: &str) -> (r: Result<(Frontmatter, String), SkillError>)
    ensures
        match r {
            Ok((fm, body)) => frontmatter(content@) == Ok::<_, SkillErrorView>((fm@, body@)),
            Err(e) => frontmatter(content@) == Err::<(FrontmatterView, Seq<char>), _>(e@),
        },
{
    let chars = chars_of(content);
    let all: &[char] = &chars;
    let text = skip_newlines_of(
        if all.len() > 0 && all[0] == '\u{feff}' {
            slice_subrange(all, 1, all.len())
        } else {
            all
        },
    );
    let dashes = chars_of("---");
    proof {
        reveal_strlit("---");
    }
    if !starts_with_of(text, &dashes) {
        return Err(invalid("missing frontmatter start delimiter ---"));
    }
    let start = slice_subrange(text, 3, text.len());
    if trim_of(before_of(start, '\n')).len() > 0 {
        return Err(invalid("start delimiter --- must be followed by a newline"));
    }
    let mut rest: &[char] = after_of(start, '\n');
    let mut fm = Frontmatter {
        name: None,
        description: None,
        license: None,
        compatibility: None,
        metadata: Vec::new(),
        allowed_tools: Vec::new(),
    };
    assert(fm@.metadata =~= Seq::empty());
    assert(fm@.allowed_tools =~= Seq::empty());
    let mut block = Block::TopLevel;
    loop
        invariant
            frontmatter(content@) == head_and_body(rest@, fm@, block),
            dashes@ == "---"@,
        decreases rest@.len(),
    {
        let line = before_of(rest, '\n');
        let tail = after_of(rest, '\n');
        if is_str(trim_of(line), "---") {
            let body = if tail.len() > 0 && tail[0] == '\n' {
                slice_subrange(tail, 1, tail.len())
            } else {
                tail
            };
            return Ok((fm, string_of(body)));
        }
        if tail.len() == 0 {
            return Err(invalid("missing frontmatter end delimiter ---"));
        }
        match fm.head_line(block, line) {
            Err(e) => {
                return Err(e);
            },
            Ok(next) => {
                block = next;
            },
        }
        rest = tail;
    }
}

} // verus!
