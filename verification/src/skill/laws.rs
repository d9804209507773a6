//! What a `SKILL.md` says, in terms of its text, and what is told of skills.

use vstd::prelude::*;

use super::error::{SkillError, SkillErrorView};
use super::frontmatter::{
    frontmatter, head_and_body, inline_tools, is_key_char, is_known_field, key_value,
    pairs_view, parse_frontmatter, tool_entries, tool_entry, tools_view, unquoted, without_prefix,
    Block, Frontmatter,
    FrontmatterView,
};
use super::registry::{loaded, menu_line, menu_text, merged, with_all, SkillRegistry};
use super::{
    description_fault, format_skill_content, name_fault, reference_of, reference_target,
    resource_lines, skill_content, skill_in, skill_of, stays_below, AllowedTool,
    AllowedToolView, FoundFile, Skill, SkillView,
};
use crate::keyed::values;
use crate::text::{
    after, before, byte_len, is_white, join, lemma_position, opt_str_view, position, skip_newlines,
    starts_with, trim, views, words,
};
use crate::text_laws::{
    is_blank, is_trimmed, is_word, law_leading_line_breaks_are_skipped, law_split_undoes_join,
    law_text_is_divided_at_the_first_mark, law_trim_takes_white_space_only,
    law_words_behind_white_space, law_words_stand_between_white_space, lemma_join_first,
    lemma_order_concat, lemma_order_within, lemma_whole_stands, stand_in_order,
};

verus! {

/// Whether no line of a text is the closing delimiter; each line has its end.
pub open spec fn has_no_fence(lines: Seq<char>) -> bool
    decreases lines.len(),
{
    lines.len() > 0 ==> {
        let line = before(lines, '\n');
        &&& line.len() < lines.len()
        &&& trim(line) != "---"@
        &&& has_no_fence(lines.skip((line.len() + 1) as int))
    }
}

/// Whether a text is a head, the closing delimiter on a line of its own, and a
/// body behind it, with at most one blank line between.
pub open spec fn is_divided(
    text: Seq<char>,
    lines: Seq<char>,
    fence: Seq<char>,
    gap: Seq<char>,
    body: Seq<char>,
) -> bool {
    &&& text == lines + fence + gap + body
    &&& has_no_fence(lines)
    &&& !fence.contains('\n')
    &&& trim(fence) == "---"@
    &&& {
        ||| gap.len() == 0 && body.len() == 0
        ||| gap == seq!['\n'] && (body.len() > 0 ==> body[0] != '\n')
        ||| gap == seq!['\n', '\n']
    }
}

/// Whether a text is an opening line that ends in a line break, and a divided
/// text behind it.
pub open spec fn is_document(
    content: Seq<char>,
    opening: Seq<char>,
    lines: Seq<char>,
    fence: Seq<char>,
    gap: Seq<char>,
    body: Seq<char>,
) -> bool {
    &&& content == opening + lines + fence + gap + body
    &&& opening.len() >= 4 && opening.last() == '\n'
    &&& is_divided(lines + fence + gap + body, lines, fence, gap, body)
}

#[verifier::rlimit(40)]
proof fn lemma_divided(rest: Seq<char>, fm: FrontmatterView, block: Block) -> (parts: (
    Seq<char>,
    Seq<char>,
    Seq<char>,
))
    requires
        head_and_body(rest, fm, block) is Ok,
    ensures
        is_divided(rest, parts.0, parts.1, parts.2, head_and_body(rest, fm, block)->Ok_0.1),
    decreases rest.len(),
{
    let line = before(rest, '\n');
    let tail = after(rest, '\n');
    let p = position(rest, '\n') as int;
    lemma_position(rest, '\n');
    assert(!line.contains('\n')) by {
        if line.contains('\n') {
            let i = choose|i: int| 0 <= i < line.len() && line[i] == '\n';
            assert(rest[i] != '\n');
        }
    }
    if trim(line) == "---"@ {
        let body = head_and_body(rest, fm, block)->Ok_0.1;
        let none = Seq::<char>::empty();
        if p < rest.len() {
            if tail.len() > 0 && tail[0] == '\n' {
                assert(rest =~= none + line + seq!['\n', '\n'] + body);
                (none, line, seq!['\n', '\n'])
            } else {
                assert(rest =~= none + line + seq!['\n'] + body);
                (none, line, seq!['\n'])
            }
        } else {
            assert(rest =~= none + line + none + body);
            (none, line, none)
        }
    } else {
        let (next, block) = fm.line(block, line)->Ok_0;
        let (lines, fence, gap) = lemma_divided(tail, next, block);
        let body = head_and_body(tail, next, block)->Ok_0.1;
        let all = line.push('\n') + lines;
        assert(rest =~= line.push('\n') + tail);
        assert(rest =~= all + fence + gap + body);
        law_text_is_divided_at_the_first_mark(line, '\n', lines);
        assert(before(all, '\n') == line);
        assert(all.skip((line.len() + 1) as int) =~= lines);
        assert(has_no_fence(all));
        (all, fence, gap)
    }
}

/// The body is everything behind the head: a text that is read is an opening
/// line, the lines of the head, the first line that is the closing delimiter,
/// at most one blank line, and the body, with nothing left out.
pub proof fn law_body_is_all_behind_the_head(content: Seq<char>)
    ensures
        frontmatter(content) matches Ok((fm, body)) ==> exists|
            opening: Seq<char>,
            lines: Seq<char>,
            fence: Seq<char>,
            gap: Seq<char>,
        | #[trigger]
            is_document(content, opening, lines, fence, gap, body),
{
    if frontmatter(content) is Ok {
        let rest = without_prefix(content).skip(3);
        let tail = after(rest, '\n');
        let body = frontmatter(content)->Ok_0.1;
        let (lines, fence, gap) = lemma_divided(tail, FrontmatterView::empty(), Block::TopLevel);
        lemma_fence_is_not_empty(fence);
        assert(tail.len() >= fence.len());
        lemma_opening_line(content);
        let opening = content.take(content.len() - tail.len());
        lemma_four(opening, lines, fence, gap, body);
        assert(is_document(content, opening, lines, fence, gap, body));
    }
}

/// What stands before the head of a text that has one.
proof fn lemma_opening_line(content: Seq<char>)
    requires
        starts_with(without_prefix(content), "---"@),
        after(without_prefix(content).skip(3), '\n').len() > 0,
    ensures
        ({
            let tail = after(without_prefix(content).skip(3), '\n');
            let opening = content.take(content.len() - tail.len());
            &&& tail.len() + 4 <= content.len()
            &&& content == opening + tail
            &&& opening.len() >= 4
            &&& opening.last() == '\n'
        }),
{
    reveal_strlit("---");
    let text = without_prefix(content);
    let rest = text.skip(3);
    let p = position(rest, '\n') as int;
    let tail = after(rest, '\n');
    lemma_position(rest, '\n');
    lemma_without_prefix(content);
    let k = content.len() - text.len();
    assert(p < rest.len());
    assert(rest.len() == text.len() - 3);
    assert(tail.len() == rest.len() - p - 1);
    let opening = content.take(content.len() - tail.len());
    assert(forall|i: int| 0 <= i < text.len() ==> #[trigger] text[i] == content[k + i]);
    assert forall|i: int| 0 <= i < tail.len() implies #[trigger] tail[i] == content[opening.len()
        + i] by {
        assert(tail[i] == rest[p + 1 + i]);
        assert(rest[p + 1 + i] == text[3 + p + 1 + i]);
    }
    assert(content =~= opening + tail);
    assert(opening.last() == text[3 + p]);
    assert(rest[p] == text[3 + p]);
}

proof fn lemma_four(a: Seq<char>, b: Seq<char>, c: Seq<char>, d: Seq<char>, e: Seq<char>)
    ensures
        a + (b + c + d + e) == a + b + c + d + e,
{
    assert(a + (b + c + d + e) =~= a + b + c + d + e);
}

proof fn lemma_fence_is_not_empty(fence: Seq<char>)
    requires
        trim(fence) == "---"@,
    ensures
        fence.len() > 0,
{
    reveal_strlit("---");
    if fence.len() == 0 {
        assert(trim(fence).len() == 0);
    }
}

proof fn lemma_without_prefix(content: Seq<char>)
    ensures
        without_prefix(content).len() <= content.len(),
        without_prefix(content) == content.skip(content.len() - without_prefix(content).len()),
{
    let from = if content.len() > 0 && content[0] == '\u{feff}' {
        content.skip(1)
    } else {
        content
    };
    lemma_skip_newlines(from);
    assert(without_prefix(content) =~= content.skip(
        content.len() - without_prefix(content).len(),
    ));
}

proof fn lemma_skip_newlines(s: Seq<char>)
    ensures
        skip_newlines(s).len() <= s.len(),
        skip_newlines(s) == s.skip(s.len() - skip_newlines(s).len()),
    decreases s.len(),
{
    if s.len() > 0 && (s[0] == '\n' || s[0] == '\r') {
        lemma_skip_newlines(s.drop_first());
        assert(skip_newlines(s) =~= s.skip(s.len() - skip_newlines(s).len()));
    } else {
        assert(s.skip(0) =~= s);
    }
}

/// The head is read line by line, up to the closing delimiter; what stands
/// behind it is the body, less one blank line.
pub proof fn law_head_is_read_line_by_line(
    line: Seq<char>,
    rest: Seq<char>,
    fm: FrontmatterView,
    block: Block,
)
    requires
        !line.contains('\n'),
    ensures
        trim(line) != "---"@ && rest.len() > 0 ==> head_and_body(
            line.push('\n') + rest,
            fm,
            block,
        ) == match fm.line(block, line) {
            Ok((next, inner)) => head_and_body(rest, next, inner),
            Err(e) => Err(e),
        },
        trim(line) == "---"@ ==> head_and_body(line.push('\n') + rest, fm, block) == Ok::<
            (FrontmatterView, Seq<char>),
            SkillErrorView,
        >(
            (
                fm,
                if rest.len() > 0 && rest[0] == '\n' {
                    rest.skip(1)
                } else {
                    rest
                },
            ),
        ),
        trim(line) != "---"@ ==> head_and_body(line, fm, block) is Err,
{
    law_text_is_divided_at_the_first_mark(line, '\n', rest);
}

/// Whether a text is the name of a field.
pub open spec fn is_key(key: Seq<char>) -> bool {
    key.len() > 0 && forall|i: int| 0 <= i < key.len() ==> is_key_char(#[trigger] key[i])
}

/// Letters, digits, hyphens and underscores make field names; white space,
/// colons and other signs do not.
pub proof fn law_field_name_characters(c: char)
    requires
        c as u32 <= 127,
    ensures
        is_key_char(c) <==> ('a' <= c <= 'z' || 'A' <= c <= 'Z' || '0' <= c <= '9' || c == '-' || c
            == '_'),
{
}

/// Whether a value stands as it is: it is not in quotes.
pub open spec fn is_plain(text: Seq<char>) -> bool {
    text.len() >= 2 && text[0] == text.last() ==> text[0] != '"' && text[0] != '\''
}

proof fn lemma_key(key: Seq<char>)
    requires
        is_key(key),
    ensures
        is_trimmed(key),
        !key.contains(':'),
        trim(key) == key,
        key[0] != '#' && key[0] != ' ' && key[0] != '\t',
{
    assert(is_key_char(key[0]));
    assert(is_key_char(key[key.len() - 1]));
    if key.contains(':') {
        let i = choose|i: int| 0 <= i < key.len() && key[i] == ':';
        assert(is_key_char(key[i]));
    }
    let none = Seq::<char>::empty();
    law_trim_takes_white_space_only(none, key, none);
    assert(none + key + none =~= key);
}

/// A `key: value` line gives its key and its value, without the white space
/// around them.
pub proof fn law_pairs_are_read(key: Seq<char>, space: Seq<char>, text: Seq<char>)
    requires
        is_key(key),
        is_blank(space),
        is_trimmed(text),
    ensures
        key_value(key.push(':') + space + text) == Ok::<
            (Seq<char>, Option<Seq<char>>),
            SkillErrorView,
        >(
            (
                key,
                if text.len() == 0 {
                    None
                } else {
                    Some(text)
                },
            ),
        ),
{
    let line = key.push(':') + space + text;
    let none = Seq::<char>::empty();
    lemma_key(key);
    assert(line =~= key.push(':') + (space + text));
    law_text_is_divided_at_the_first_mark(key, ':', space + text);
    law_trim_takes_white_space_only(space, text, none);
    assert(space + text + none =~= space + text);
    assert(line[key.len() as int] == ':');
    assert(line.contains(':'));
    assert forall|i: int| 0 <= i < key.len() implies is_key_char(#[trigger] key[i]) by {}
}

/// A value in quotes, of either kind, is what stands between them; any other
/// value stands as it is.
pub proof fn law_quotes_are_taken_off(text: Seq<char>)
    ensures
        unquoted(seq!['"'] + text + seq!['"']) == text,
        unquoted(seq!['\''] + text + seq!['\'']) == text,
        is_trimmed(text) && is_plain(text) ==> unquoted(text) == text,
{
    let none = Seq::<char>::empty();
    let a = seq!['"'] + text + seq!['"'];
    let b = seq!['\''] + text + seq!['\''];
    law_trim_takes_white_space_only(none, a, none);
    law_trim_takes_white_space_only(none, b, none);
    assert(none + a + none =~= a);
    assert(none + b + none =~= b);
    assert(a.subrange(1, a.len() - 1) =~= text);
    assert(b.subrange(1, b.len() - 1) =~= text);
    if is_trimmed(text) {
        law_trim_takes_white_space_only(none, text, none);
        assert(none + text + none =~= text);
    }
}

proof fn lemma_field_line(
    fm: FrontmatterView,
    block: Block,
    key: Seq<char>,
    space: Seq<char>,
    text: Seq<char>,
    right: Seq<char>,
)
    requires
        is_key(key),
        is_blank(space),
        is_blank(right),
        is_trimmed(text),
    ensures
        fm.line(block, key.push(':') + space + text + right) == fm.field(
            key,
            if text.len() == 0 {
                None
            } else {
                Some(unquoted(text))
            },
        ),
{
    let none = Seq::<char>::empty();
    let line = key.push(':') + space + text + right;
    lemma_key(key);
    assert(line[0] == key[0]);
    if text.len() > 0 {
        let core = key.push(':') + space + text;
        assert(is_trimmed(core));
        law_trim_takes_white_space_only(none, core, right);
        assert(none + core + right =~= line);
        law_pairs_are_read(key, space, text);
        assert(core[0] == key[0]);
    } else {
        let core = key.push(':');
        assert(is_trimmed(core)) by {
            assert(!is_white(':'));
        }
        let blank = space + right;
        assert forall|i: int| 0 <= i < blank.len() implies is_white(#[trigger] blank[i]) by {
            if i < space.len() {
                assert(is_white(space[i]));
            } else {
                assert(is_white(right[i - space.len()]));
            }
        }
        law_trim_takes_white_space_only(none, core, blank);
        assert(none + core + blank =~= line);
        law_pairs_are_read(key, none, none);
        assert(core + none + none =~= core);
        assert(core[0] == key[0]);
    }
}

/// A top-level line sets the field that it names, and no other: to its value as
/// it is written, or to what stands between the quotes. An unknown field joins
/// the metadata.
#[verifier::rlimit(40)]
pub proof fn law_fields_are_set(
    fm: FrontmatterView,
    block: Block,
    key: Seq<char>,
    space: Seq<char>,
    text: Seq<char>,
    right: Seq<char>,
)
    requires
        is_key(key),
        is_blank(space),
        is_blank(right),
        is_trimmed(text),
        is_plain(text),
        text.len() > 0,
    ensures
        ({
            let plain = fm.line(block, key.push(':') + space + text + right);
            let quoted = fm.line(
                block,
                key.push(':') + space + (seq!['"'] + text + seq!['"']) + right,
            );
            let top = Block::TopLevel;
            &&& key != "allowed-tools"@ ==> quoted == plain
            &&& key == "name"@ ==> plain == Ok::<(FrontmatterView, Block), SkillErrorView>(
                (FrontmatterView { name: Some(text), ..fm }, top),
            )
            &&& key == "description"@ ==> plain == Ok::<(FrontmatterView, Block), SkillErrorView>(
                (FrontmatterView { description: Some(text), ..fm }, top),
            )
            &&& key == "license"@ ==> plain == Ok::<(FrontmatterView, Block), SkillErrorView>(
                (FrontmatterView { license: Some(text), ..fm }, top),
            )
            &&& key == "compatibility"@ && text.len() <= 500 ==> plain == Ok::<
                (FrontmatterView, Block),
                SkillErrorView,
            >((FrontmatterView { compatibility: Some(text), ..fm }, top))
            &&& key == "compatibility"@ && text.len() > 500 ==> plain is Err
            &&& key == "metadata"@ ==> plain is Err
            &&& !is_known_field(key) ==> plain == Ok::<(FrontmatterView, Block), SkillErrorView>(
                (FrontmatterView { metadata: fm.metadata.push((key, text)), ..fm }, top),
            )
            &&& key == "allowed-tools"@ ==> plain == match inline_tools(text) {
                Ok(tools) => Ok::<(FrontmatterView, Block), SkillErrorView>(
                    (
                        FrontmatterView { allowed_tools: fm.allowed_tools + tools, ..fm },
                        Block::AllowedTools,
                    ),
                ),
                Err(e) => Err(e),
            }
        }),
{
    lemma_field_line(fm, block, key, space, text, right);
    let marks = seq!['"'] + text + seq!['"'];
    assert(is_trimmed(marks));
    lemma_field_line(fm, block, key, space, marks, right);
    law_quotes_are_taken_off(text);
    lemma_field_names();
}

proof fn lemma_field_names()
    ensures
        "name"@.len() == 4,
        "description"@.len() == 11,
        "license"@.len() == 7,
        "compatibility"@.len() == 13,
        "compatibility"@[0] == 'c',
        "allowed-tools"@.len() == 13,
        "allowed-tools"@[0] == 'a',
        "metadata"@.len() == 8,
{
    reveal_strlit("name");
    reveal_strlit("description");
    reveal_strlit("license");
    reveal_strlit("compatibility");
    reveal_strlit("allowed-tools");
    reveal_strlit("metadata");
}

/// The fields that are known are these six.
pub proof fn law_known_fields(key: Seq<char>)
    ensures
        is_known_field(key) <==> key == "name"@ || key == "description"@ || key == "license"@ || key
            == "compatibility"@ || key == "allowed-tools"@ || key == "metadata"@,
{
}

/// `metadata:` and `allowed-tools:` without a value open their blocks.
pub proof fn law_blocks_are_opened(fm: FrontmatterView, block: Block)
    ensures
        fm.line(block, "metadata:"@) == Ok::<(FrontmatterView, Block), SkillErrorView>(
            (fm, Block::Metadata),
        ),
        fm.line(block, "allowed-tools:"@) == Ok::<(FrontmatterView, Block), SkillErrorView>(
            (fm, Block::AllowedTools),
        ),
{
    let none = Seq::<char>::empty();
    lemma_field_names();
    lemma_block_keys();
    lemma_field_line(fm, block, "metadata"@, none, none, none);
    lemma_field_line(fm, block, "allowed-tools"@, none, none, none);
}

proof fn lemma_block_keys()
    ensures
        is_key("metadata"@),
        is_key("allowed-tools"@),
        "metadata"@.push(':') + Seq::<char>::empty() + Seq::<char>::empty() + Seq::<char>::empty()
            == "metadata:"@,
        "allowed-tools"@.push(':') + Seq::<char>::empty() + Seq::<char>::empty() + Seq::<
            char,
        >::empty() == "allowed-tools:"@,
{
    let none = Seq::<char>::empty();
    reveal_strlit("metadata");
    reveal_strlit("metadata:");
    reveal_strlit("allowed-tools");
    reveal_strlit("allowed-tools:");
    assert("metadata"@.push(':') + none + none + none =~= "metadata:"@);
    assert("allowed-tools"@.push(':') + none + none + none =~= "allowed-tools:"@);
}

/// Under `metadata:`, each indented pair is added as it is written.
pub proof fn law_metadata_pairs_are_added(fm: FrontmatterView, key: Seq<char>, text: Seq<char>)
    requires
        is_key(key),
        key[0] != '-',
        is_trimmed(text),
        is_plain(text),
        text.len() > 0,
    ensures
        fm.line(Block::Metadata, seq![' '] + (key.push(':') + seq![' '] + text)) == Ok::<
            (FrontmatterView, Block),
            SkillErrorView,
        >(
            (
                FrontmatterView { metadata: fm.metadata.push((key, text)), ..fm },
                Block::Metadata,
            ),
        ),
{
    let none = Seq::<char>::empty();
    let space = seq![' '];
    assert(is_blank(space));
    reveal_strlit("- ");
    lemma_key(key);
    let pair = key.push(':') + space + text;
    assert(is_trimmed(pair));
    law_trim_takes_white_space_only(space, pair, none);
    assert(space + pair + none =~= space + pair);
    law_pairs_are_read(key, space, text);
    law_quotes_are_taken_off(text);
    assert(!starts_with(pair, "- "@)) by {
        if starts_with(pair, "- "@) {
            assert(pair.take(2)[0] == "- "@[0]);
        }
    }
}

/// Under `allowed-tools:`, each indented item grants what its entry names.
pub proof fn law_tool_items_are_added(fm: FrontmatterView, text: Seq<char>)
    requires
        is_trimmed(text),
        text.len() > 0,
    ensures
        fm.line(Block::AllowedTools, seq![' '] + (seq!['-', ' '] + text)) == match tool_entry(
            text,
        ) {
            Ok(tool) => Ok::<(FrontmatterView, Block), SkillErrorView>(
                (
                    FrontmatterView { allowed_tools: fm.allowed_tools.push(tool), ..fm },
                    Block::AllowedTools,
                ),
            ),
            Err(e) => Err(e),
        },
{
    let none = Seq::<char>::empty();
    let space = seq![' '];
    assert(is_blank(space));
    reveal_strlit("- ");
    let item = seq!['-', ' '] + text;
    assert(is_trimmed(item));
    law_trim_takes_white_space_only(space, item, none);
    assert(space + item + none =~= space + item);
    assert(item.take(2) =~= "- "@);
    assert(item.skip(2) =~= text);
    law_trim_takes_white_space_only(none, text, none);
    assert(none + text + none =~= text);
    if let Ok(tool) = tool_entry(text) {
        assert(fm.allowed_tools + seq![tool] =~= fm.allowed_tools.push(tool));
    }
}

/// Blank lines and comments say nothing.
pub proof fn law_blank_lines_and_comments_say_nothing(
    fm: FrontmatterView,
    block: Block,
    blank: Seq<char>,
    comment: Seq<char>,
)
    requires
        is_blank(blank),
        is_trimmed(comment) && comment.len() > 0 && comment[0] == '#',
    ensures
        fm.line(block, blank) == Ok::<(FrontmatterView, Block), SkillErrorView>((fm, block)),
        fm.line(block, comment) == Ok::<(FrontmatterView, Block), SkillErrorView>((fm, block)),
{
    let none = Seq::<char>::empty();
    law_trim_takes_white_space_only(blank, none, none);
    assert(blank + none + none =~= blank);
    law_trim_takes_white_space_only(none, comment, none);
    assert(none + comment + none =~= comment);
}

/// An entry grants the tool that it names, for the arguments in its brackets;
/// without brackets, or with empty ones, for all.
#[verifier::rlimit(40)]
pub proof fn law_entries_grant_what_they_name(name: Seq<char>, scope: Seq<char>)
    requires
        is_trimmed(name) && name.len() > 0,
        is_trimmed(scope),
        !name.contains('(') && !name.contains(')') && !name.contains('[') && !name.contains(']')
            && !name.contains(','),
        !scope.contains('('),
    ensures
        tool_entry(name) == Ok::<AllowedToolView, SkillErrorView>(
            AllowedToolView { name, scope: None },
        ),
        tool_entry(name.push('(') + scope + seq![')']) == Ok::<AllowedToolView, SkillErrorView>(
            AllowedToolView {
                name,
                scope: if scope.len() == 0 {
                    None
                } else {
                    Some(scope)
                },
            },
        ),
        tool_entry(name.push('(') + scope) is Err || scope.len() > 0 && scope.last() == ')',
{
    let none = Seq::<char>::empty();
    let item = name.push('(') + scope + seq![')'];
    let inside = scope + seq![')'];
    assert(item =~= name.push('(') + inside);
    law_text_is_divided_at_the_first_mark(name, '(', inside);
    law_trim_takes_white_space_only(none, name, none);
    assert(none + name + none =~= name);
    law_trim_takes_white_space_only(none, scope, none);
    assert(none + scope + none =~= scope);
    assert(inside.drop_last() =~= scope);
    assert(item[name.len() as int] == '(');
    assert(item.contains('('));
    assert(!inside.contains('(')) by {
        if inside.contains('(') {
            let i = choose|i: int| 0 <= i < inside.len() && inside[i] == '(';
            if i < scope.len() {
                assert(scope[i] == '(');
            }
        }
    }
    let open = name.push('(') + scope;
    assert(open[name.len() as int] == '(');
    assert(open.contains('('));
}

/// A declared tool permits calls of that tool alone, and only those whose
/// arguments begin with the scope; a star at the scope's end stands for
/// anything that may follow.
pub proof fn law_scopes_permit_by_prefix(
    name: Seq<char>,
    prefix: Seq<char>,
    tool: Seq<char>,
    args: Seq<char>,
    rest: Seq<char>,
)
    requires
        prefix.len() > 0 ==> prefix.last() != '*',
    ensures
        (AllowedToolView { name, scope: Some(prefix) }).permits(name, prefix + rest),
        (AllowedToolView { name, scope: Some(prefix.push('*')) }).permits(name, prefix + rest),
        (AllowedToolView { name, scope: None }).permits(name, args),
        forall|scope: Option<Seq<char>>|
            tool != name ==> !(#[trigger] (AllowedToolView { name, scope }).permits(tool, args)),
        args.len() < prefix.len() || args.take(prefix.len() as int) != prefix
            ==> !(AllowedToolView { name, scope: Some(prefix) }).permits(name, args)
            && !(AllowedToolView { name, scope: Some(prefix.push('*')) }).permits(name, args),
{
    assert((prefix + rest).take(prefix.len() as int) =~= prefix);
    assert(prefix.push('*').drop_last() =~= prefix);
}

/// A name is accepted exactly when it has 1 to 64 characters, of lower-case
/// letters, digits and single hyphens between them.
pub proof fn law_accepted_names(name: Seq<char>)
    ensures
        name_fault(name) is None <==> {
            &&& 1 <= name.len() <= 64
            &&& forall|i: int|
                0 <= i < name.len() ==> 'a' <= #[trigger] name[i] <= 'z' || '0' <= name[i] <= '9'
                    || name[i] == '-'
            &&& name[0] != '-' && name.last() != '-'
            &&& forall|i: int|
                0 <= i < name.len() - 1 && #[trigger] name[i] == '-' ==> name[i + 1] != '-'
        },
{
}

/// A description is accepted exactly when it has 1 to 1024 characters.
pub proof fn law_accepted_descriptions(description: Seq<char>)
    ensures
        description_fault(description) is None <==> 1 <= description.len() <= 1024,
{
}

/// A skill that is written down is read as it is written: its name, its
/// description and its whole body.
#[verifier::rlimit(40)]
pub proof fn law_written_skill_is_read(name: Seq<char>, description: Seq<char>, body: Seq<char>)
    requires
        name_fault(name) is None,
        description_fault(description) is None,
        is_trimmed(description),
        is_plain(description),
        !description.contains('\n'),
        body.len() <= 262144,
        body.len() > 0 ==> body[0] != '\n',
    ensures
        skill_of(
            "---\nname: "@ + name + "\ndescription: "@ + description + "\n---\n"@ + body,
        ) == Ok::<SkillView, SkillErrorView>(
            SkillView {
                name,
                description,
                body,
                license: None,
                compatibility: None,
                metadata: Seq::empty(),
                allowed_tools: Seq::empty(),
                resources: Seq::empty(),
                base_dir: None,
            },
        ),
{
    let content = "---\nname: "@ + name + "\ndescription: "@ + description + "\n---\n"@ + body;
    let space = seq![' '];
    let none = Seq::<char>::empty();
    let first = "name"@.push(':') + space + name + none;
    let second = "description"@.push(':') + space + description + none;
    let end = "---"@.push('\n') + body;
    let tail = second.push('\n') + end;
    lemma_plain_name(name);
    lemma_layout(name, description, body);
    lemma_opening(first.push('\n') + tail);
    let empty = FrontmatterView::empty();
    let top = Block::TopLevel;
    lemma_written_lines(empty, name, description);
    let one = FrontmatterView { name: Some(name), ..empty };
    let two = FrontmatterView { description: Some(description), ..one };
    assert(tail.len() > 0 && end.len() > 0);
    law_head_is_read_line_by_line(first, tail, empty, top);
    law_head_is_read_line_by_line(second, end, one, top);
    lemma_fence();
    law_head_is_read_line_by_line("---"@, body, two, top);
    assert(frontmatter(content) == Ok::<(FrontmatterView, Seq<char>), SkillErrorView>(
        (two, body),
    ));
}

proof fn lemma_fence()
    ensures
        trim("---"@) == "---"@,
        !"---"@.contains('\n'),
{
    reveal_strlit("---");
    let none = Seq::<char>::empty();
    law_trim_takes_white_space_only(none, "---"@, none);
    assert(none + "---"@ + none =~= "---"@);
}

#[verifier::rlimit(40)]
proof fn lemma_layout(name: Seq<char>, description: Seq<char>, body: Seq<char>)
    ensures
        ({
            let space = seq![' '];
            let none = Seq::<char>::empty();
            let first = "name"@.push(':') + space + name + none;
            let second = "description"@.push(':') + space + description + none;
            "---\nname: "@ + name + "\ndescription: "@ + description + "\n---\n"@ + body
                == "---"@.push('\n') + (first.push('\n') + (second.push('\n') + ("---"@.push('\n')
                + body)))
        }),
{
    reveal_strlit("---\nname: ");
    reveal_strlit("\ndescription: ");
    reveal_strlit("\n---\n");
    reveal_strlit("---");
    reveal_strlit("name");
    reveal_strlit("description");
    let space = seq![' '];
    let none = Seq::<char>::empty();
    let nl = seq!['\n'];
    assert("---\nname: "@ =~= "---"@.push('\n') + ("name"@.push(':') + space));
    assert("\ndescription: "@ =~= nl + ("description"@.push(':') + space));
    assert("\n---\n"@ =~= nl + "---"@.push('\n'));
    let a = "---"@.push('\n');
    let b = "name"@.push(':') + space;
    let c = "description"@.push(':') + space;
    assert((b + name + none).push('\n') =~= b + name + nl);
    assert((c + description + none).push('\n') =~= c + description + nl);
    assert(a + b + name + (nl + c) + description + (nl + a) + body =~= a + (b + name + nl + (c
        + description + nl + (a + body))));
}

/// What a text says whose first line is the delimiter.
proof fn lemma_opening(head: Seq<char>)
    ensures
        frontmatter("---"@.push('\n') + head) == head_and_body(
            head,
            FrontmatterView::empty(),
            Block::TopLevel,
        ),
{
    reveal_strlit("---");
    let none = Seq::<char>::empty();
    let content = "---"@.push('\n') + head;
    assert(content[0] == '-');
    assert(without_prefix(content) == content);
    assert(content.take(3) =~= "---"@);
    assert(content.skip(3) =~= none.push('\n') + head);
    law_text_is_divided_at_the_first_mark(none, '\n', head);
    assert(trim(none).len() == 0);
}

#[verifier::rlimit(40)]
proof fn lemma_written_lines(empty: FrontmatterView, name: Seq<char>, description: Seq<char>)
    requires
        is_trimmed(name) && is_plain(name) && name.len() > 0,
        forall|i: int| 0 <= i < name.len() ==> #[trigger] name[i] != '\n',
        is_trimmed(description) && is_plain(description) && description.len() > 0,
        !description.contains('\n'),
    ensures
        ({
            let space = seq![' '];
            let none = Seq::<char>::empty();
            let top = Block::TopLevel;
            let first = "name"@.push(':') + space + name + none;
            let second = "description"@.push(':') + space + description + none;
            let one = FrontmatterView { name: Some(name), ..empty };
            let two = FrontmatterView { description: Some(description), ..one };
            &&& !first.contains('\n') && trim(first) != "---"@
            &&& !second.contains('\n') && trim(second) != "---"@
            &&& empty.line(top, first) == Ok::<(FrontmatterView, Block), SkillErrorView>((one, top))
            &&& one.line(top, second) == Ok::<(FrontmatterView, Block), SkillErrorView>((two, top))
        }),
{
    let space = seq![' '];
    let none = Seq::<char>::empty();
    let top = Block::TopLevel;
    let first = "name"@.push(':') + space + name + none;
    let second = "description"@.push(':') + space + description + none;
    reveal_strlit("name");
    reveal_strlit("description");
    assert(is_key("name"@));
    assert(is_key("description"@));
    lemma_not_fence(first);
    lemma_not_fence(second);
    assert(!first.contains('\n')) by {
        if first.contains('\n') {
            let i = choose|i: int| 0 <= i < first.len() && first[i] == '\n';
            if i >= 6 {
                assert(name[i - 6] == '\n');
            }
        }
    }
    assert(!second.contains('\n')) by {
        if second.contains('\n') {
            let i = choose|i: int| 0 <= i < second.len() && second[i] == '\n';
            if i >= 13 {
                assert(description[i - 13] == '\n');
                assert(description.contains('\n'));
            }
        }
    }
    law_fields_are_set(empty, top, "name"@, space, name, none);
    let one = FrontmatterView { name: Some(name), ..empty };
    law_fields_are_set(one, top, "description"@, space, description, none);
}

proof fn lemma_plain_name(name: Seq<char>)
    requires
        name_fault(name) is None,
    ensures
        is_trimmed(name),
        is_plain(name),
        name.len() > 0,
        forall|i: int| 0 <= i < name.len() ==> #[trigger] name[i] != '\n',
{
    law_accepted_names(name);
    assert('a' <= name[0] <= 'z' || '0' <= name[0] <= '9' || name[0] == '-');
    let n = name.len() - 1;
    assert('a' <= name[n] <= 'z' || '0' <= name[n] <= '9' || name[n] == '-');
}

/// A line that begins with a letter is no delimiter.
proof fn lemma_not_fence(line: Seq<char>)
    requires
        line.len() > 0,
        line[0] == 'n' || line[0] == 'd',
    ensures
        trim(line) != "---"@,
{
    reveal_strlit("---");
    if trim(line) == "---"@ {
        crate::text_laws::law_trim_leaves_the_middle(line);
        let (left, right) = choose|left: Seq<char>, right: Seq<char>|
            line == #[trigger] (left + trim(line) + right) && is_blank(left) && is_blank(right);
        if left.len() > 0 {
            assert(is_white(left[0]));
            assert(line[0] == left[0]);
        } else {
            assert(line[0] == trim(line)[0]);
        }
    }
}

/// A skill's file must be named by its directory and be no longer than allowed;
/// otherwise it is read like any text.
pub proof fn law_skill_of_a_directory(dir_name: Seq<char>, content: Seq<char>)
    ensures
        skill_in(dir_name, content) matches Ok(skill) ==> skill.name == dir_name && skill_of(content)
            == Ok::<SkillView, SkillErrorView>(skill) && byte_len(content) <= 1048576,
        byte_len(content) <= 1048576 && (skill_of(content) matches Ok(skill) && skill.name
            == dir_name) ==> skill_in(dir_name, content) is Ok,
{
}

/// A path stays below its directory exactly when it is not absolute and none of
/// its parts leads upwards.
pub proof fn law_paths_stay_below(parts: Seq<Seq<char>>)
    requires
        parts.len() > 0,
        forall|i: int| 0 <= i < parts.len() ==> !(#[trigger] parts[i]).contains('/'),
    ensures
        stays_below(join(parts, seq!['/'])) <==> {
            &&& parts.len() > 1 ==> parts[0].len() > 0
            &&& forall|i: int| 0 <= i < parts.len() ==> #[trigger] parts[i] != ".."@
        },
{
    law_split_undoes_join(parts, '/');
    lemma_first_sign(parts);
}

proof fn lemma_first_sign(parts: Seq<Seq<char>>)
    requires
        parts.len() > 0,
        forall|i: int| 0 <= i < parts.len() ==> !(#[trigger] parts[i]).contains('/'),
    ensures
        ({
            let path = join(parts, seq!['/']);
            (path.len() > 0 && path[0] == '/') <==> parts.len() > 1 && parts[0].len() == 0
        }),
        parts.len() > 1 ==> join(parts, seq!['/']).len() > 0,
        parts[0].len() > 0 ==> join(parts, seq!['/']).len() > 0,
    decreases parts.len(),
{
    let path = join(parts, seq!['/']);
    assert(!parts[0].contains('/'));
    if parts.len() == 1 {
        if path.len() > 0 && path[0] == '/' {
            assert(parts[0].contains('/'));
        }
    } else {
        let rest = parts.drop_last();
        assert forall|i: int| 0 <= i < rest.len() implies !(#[trigger] rest[i]).contains('/') by {
            assert(!parts[i].contains('/'));
        }
        lemma_first_sign(rest);
        let head = join(rest, seq!['/']);
        if head.len() > 0 {
            assert(path[0] == head[0]);
        } else {
            assert(path[0] == '/');
        }
        if rest.len() == 1 && rest[0].len() > 0 && head[0] == '/' {
            assert(rest[0].contains('/'));
        }
    }
}

/// A resource is read only below a skill's own directory, and then comes as it
/// is.
pub proof fn law_resources_are_read_below_the_directory(
    skill: SkillView,
    name: Seq<char>,
    file: FoundFile,
)
    ensures
        reference_of(skill, name, file) matches Ok(text) ==> skill.base_dir is Some && stays_below(
            name,
        ) && (file matches FoundFile::Text(found) && found@ == text),
        skill.base_dir is Some && stays_below(name) && file is Text ==> reference_of(
            skill,
            name,
            file,
        ) is Ok,
        reference_target(skill, name) matches Ok(dir) ==> skill.base_dir == Some(dir)
            && stays_below(name),
{
}

proof fn lemma_resources(resources: Seq<Seq<char>>)
    ensures
        stand_in_order(resources, resource_lines(resources)),
    decreases resources.len(),
{
    if resources.len() > 0 {
        let rest = resources.drop_last();
        let last = resources.last();
        lemma_resources(rest);
        lemma_whole_stands(last);
        lemma_order_within(seq![last], "\n  <file>"@, last, "</file>"@);
        let line = "\n  <file>"@ + last + "</file>"@;
        lemma_order_concat(rest, resource_lines(rest), seq![last], line);
        assert(rest + seq![last] =~= resources);
        assert(resource_lines(rest) + line =~= resource_lines(resources));
    }
}

/// The model is handed a skill in full: its name, its whole body and every
/// resource, in this order, between the tags of one element.
#[verifier::rlimit(40)]
pub proof fn law_skill_is_handed_out_in_full(skill: SkillView)
    ensures
        stand_in_order(
            seq![skill.name, skill.body] + skill.resources,
            skill_content(skill),
        ),
        starts_with(skill_content(skill), "<skill_content name=\""@ + skill.name + "\">\n"@),
        ({
            let end = "\n</skill_content>"@;
            let text = skill_content(skill);
            text.len() >= end.len() && text.skip(text.len() - end.len()) == end
        }),
        skill.base_dir is None && skill.resources.len() == 0 ==> skill_content(skill)
            == "<skill_content name=\""@ + skill.name + "\">\n"@ + skill.body
            + "\n</skill_content>"@,
{
    let note = if skill.base_dir is Some {
        "\n\nRelative paths in this skill are relative to the skill directory."@
    } else {
        Seq::empty()
    };
    let listing = if skill.resources.len() > 0 {
        "\n\n<skill_resources>"@ + resource_lines(skill.resources) + "\n</skill_resources>"@
    } else {
        Seq::empty()
    };
    let end = "\n</skill_content>"@;
    let start = "<skill_content name=\""@;
    let text = skill_content(skill);
    lemma_whole_stands(skill.name);
    lemma_whole_stands(skill.body);
    lemma_order_within(seq![skill.name], start, skill.name, "\">\n"@);
    lemma_order_concat(
        seq![skill.name],
        start + skill.name + "\">\n"@,
        seq![skill.body],
        skill.body,
    );
    assert(seq![skill.name] + seq![skill.body] =~= seq![skill.name, skill.body]);
    let head = start + skill.name + "\">\n"@ + skill.body;
    if skill.resources.len() > 0 {
        lemma_resources(skill.resources);
        lemma_order_within(
            skill.resources,
            note + "\n\n<skill_resources>"@,
            resource_lines(skill.resources),
            "\n</skill_resources>"@ + end,
        );
    } else {
        assert(skill.resources =~= Seq::empty());
    }
    let tail = note + listing + end;
    if skill.resources.len() > 0 {
        assert(tail =~= note + "\n\n<skill_resources>"@ + resource_lines(skill.resources) + (
        "\n</skill_resources>"@ + end));
    }
    lemma_order_concat(seq![skill.name, skill.body], head, skill.resources, tail);
    assert(text =~= head + tail);
    assert(text.skip(text.len() - end.len()) =~= end);
    let opening = start + skill.name + "\">\n"@;
    assert(text.take(opening.len() as int) =~= opening);
    if skill.base_dir is None && skill.resources.len() == 0 {
        assert(text =~= head + end);
    }
}

/// What the menu tells of skills: their names and descriptions.
pub open spec fn menu_pieces(skills: Seq<SkillView>) -> Seq<Seq<char>>
    decreases skills.len(),
{
    if skills.len() == 0 {
        Seq::empty()
    } else {
        menu_pieces(skills.drop_last()) + seq![skills.last().name, skills.last().description]
    }
}

/// The menu lists every skill, with its name and then its description, in the
/// order of the registry.
pub proof fn law_menu_lists_every_skill(skills: Seq<SkillView>)
    ensures
        stand_in_order(menu_pieces(skills), menu_text(skills)),
        skills.len() == 1 ==> menu_text(skills) == "- "@ + skills[0].name + ": "@
            + skills[0].description,
        skills.len() > 1 ==> menu_text(skills) == menu_text(skills.drop_last()) + "\n"@ + menu_text(
            seq![skills.last()],
        ),
    decreases skills.len(),
{
    let lines = skills.map_values(|s: SkillView| menu_line(s));
    if skills.len() > 0 {
        let rest = skills.drop_last();
        let last = skills.last();
        let line = menu_line(last);
        law_menu_lists_every_skill(rest);
        assert(lines.drop_last() =~= rest.map_values(|s: SkillView| menu_line(s)));
        assert(lines.last() == line);
        lemma_whole_stands(last.name);
        lemma_whole_stands(last.description);
        lemma_order_within(seq![last.name], "- "@, last.name, ": "@);
        lemma_order_concat(
            seq![last.name],
            "- "@ + last.name + ": "@,
            seq![last.description],
            last.description,
        );
        let two = seq![last.name, last.description];
        assert(seq![last.name] + seq![last.description] =~= two);
        assert("- "@ + last.name + ": "@ + last.description =~= line);
        assert(seq![last].map_values(|s: SkillView| menu_line(s)) =~= seq![line]);
        if skills.len() == 1 {
            assert(menu_pieces(rest) + two =~= two);
            assert(lines[0] == line);
        } else {
            lemma_order_within(two, "\n"@, line, Seq::empty());
            assert("\n"@ + line + Seq::<char>::empty() =~= "\n"@ + line);
            lemma_order_concat(menu_pieces(rest), menu_text(rest), two, "\n"@ + line);
            assert(menu_text(rest) + ("\n"@ + line) =~= menu_text(skills));
        }
    }
}

/// Parsing a `SKILL.md` leaves nothing of the body out: what stands behind the
/// head is the body.
pub proof fn law_parsed_bodies_are_whole(content: &str, fm: Frontmatter, body: String)
    requires
        call_ensures(
            parse_frontmatter,
            (content,),
            Ok::<(Frontmatter, String), SkillError>((fm, body)),
        ),
    ensures
        exists|
            opening: Seq<char>,
            lines: Seq<char>,
            fence: Seq<char>,
            gap: Seq<char>,
        | #[trigger]
            is_document(content@, opening, lines, fence, gap, body@),
{
    law_body_is_all_behind_the_head(content@);
}

/// A parsed skill has the whole body of its text, and a name and a description
/// that are accepted.
pub proof fn law_parsed_skills_are_whole(
    content: &str,
    skill: Skill,
    name: &str,
    description: &str,
    body: &str,
)
    requires
        call_ensures(Skill::parse, (content,), Ok::<Skill, SkillError>(skill)),
        call_ensures(Skill::name, (&skill,), name),
        call_ensures(Skill::description, (&skill,), description),
        call_ensures(Skill::body, (&skill,), body),
    ensures
        1 <= name@.len() <= 64,
        1 <= description@.len() <= 1024,
        body@.len() <= 262144,
        exists|
            opening: Seq<char>,
            lines: Seq<char>,
            fence: Seq<char>,
            gap: Seq<char>,
        | #[trigger]
            is_document(content@, opening, lines, fence, gap, body@),
{
    law_body_is_all_behind_the_head(content@);
}

/// Parsing a skill that is written down gives back its name, its description
/// and its body.
pub proof fn law_written_skills_parse(
    content: &str,
    r: Result<Skill, SkillError>,
    name: Seq<char>,
    description: Seq<char>,
    body: Seq<char>,
)
    requires
        call_ensures(Skill::parse, (content,), r),
        content@ == "---\nname: "@ + name + "\ndescription: "@ + description + "\n---\n"@ + body,
        name_fault(name) is None,
        description_fault(description) is None,
        is_trimmed(description),
        is_plain(description),
        !description.contains('\n'),
        body.len() <= 262144,
        body.len() > 0 ==> body[0] != '\n',
    ensures
        r matches Ok(skill) && skill@.name == name && skill@.description == description
            && skill@.body == body && skill@.allowed_tools.len() == 0,
{
    law_written_skill_is_read(name, description, body);
}

/// Handing out a skill hands out its whole body.
pub proof fn law_handed_out_skills_are_whole(skill: &Skill, text: String)
    requires
        call_ensures(format_skill_content, (skill,), text),
    ensures
        stand_in_order(seq![skill@.name, skill@.body] + skill@.resources, text@),
{
    law_skill_is_handed_out_in_full(skill@);
}

/// Whether a text names a tool, without a scope.
pub open spec fn is_tool_name(name: Seq<char>) -> bool {
    &&& is_word(name)
    &&& !name.contains('(') && !name.contains(')') && !name.contains('[') && !name.contains(']')
        && !name.contains(',')
}

/// Tools without a scope.
pub open spec fn unscoped(names: Seq<Seq<char>>) -> Seq<AllowedToolView> {
    names.map_values(|name: Seq<char>| AllowedToolView { name, scope: None })
}

proof fn lemma_entries(names: Seq<Seq<char>>)
    requires
        forall|i: int| 0 <= i < names.len() ==> is_tool_name(#[trigger] names[i]),
    ensures
        tool_entries(names) == Ok::<Seq<AllowedToolView>, SkillErrorView>(unscoped(names)),
    decreases names.len(),
{
    if names.len() > 0 {
        let rest = names.drop_last();
        let last = names.last();
        assert(is_tool_name(names[names.len() - 1]));
        assert forall|i: int| 0 <= i < rest.len() implies is_tool_name(#[trigger] rest[i]) by {
            assert(is_tool_name(names[i]));
        }
        lemma_entries(rest);
        lemma_word(last);
        law_entries_grant_what_they_name(last, Seq::empty());
        assert(unscoped(names) =~= unscoped(rest).push(
            AllowedToolView { name: last, scope: None },
        ));
    } else {
        assert(unscoped(names) =~= Seq::empty());
    }
}

proof fn lemma_word(word: Seq<char>)
    requires
        is_word(word),
    ensures
        is_trimmed(word),
        trim(word) == word,
{
    let none = Seq::<char>::empty();
    assert(!is_white(word[0]));
    assert(!is_white(word[word.len() - 1]));
    law_trim_takes_white_space_only(none, word, none);
    assert(none + word + none =~= word);
}

#[verifier::rlimit(40)]
proof fn lemma_words_join(names: Seq<Seq<char>>)
    requires
        names.len() > 0,
        forall|i: int| 0 <= i < names.len() ==> is_word(#[trigger] names[i]),
    ensures
        words(join(names, seq![' '])) == names,
        is_trimmed(join(names, seq![' '])),
        join(names, seq![' ']).len() > 0,
        join(names, seq![' '])[0] == names[0][0],
        join(names, seq![' ']).last() == names.last().last(),
    decreases names.len(),
{
    let none = Seq::<char>::empty();
    let space = seq![' '];
    let text = join(names, space);
    let first = names[0];
    assert(is_word(first));
    assert(is_word(names[names.len() - 1]));
    assert(!is_white(first[0]));
    assert(!is_white(names.last()[names.last().len() - 1]));
    if names.len() == 1 {
        law_words_stand_between_white_space(none, first, none);
        assert(none + first + none =~= first);
        assert(names =~= seq![first] + Seq::<Seq<char>>::empty());
    } else {
        let rest = names.drop_first();
        assert forall|i: int| 0 <= i < rest.len() implies is_word(#[trigger] rest[i]) by {
            assert(is_word(names[i + 1]));
        }
        lemma_words_join(rest);
        let tail = join(rest, space);
        assert(names =~= seq![first] + rest);
        lemma_join_first(first, rest, space);
        assert(text =~= none + first + (space + tail));
        law_words_stand_between_white_space(none, first, space + tail);
        assert(is_blank(space));
        law_words_behind_white_space(space, tail);
        assert(names =~= seq![first] + words(tail));
        assert(rest.last() == names.last());
        assert(text.last() == tail.last());
    }
}

/// Tools may be listed as words, or in square brackets with commas: either way
/// each name grants its tool, in order.
#[verifier::rlimit(40)]
pub proof fn law_listed_tools_are_granted(names: Seq<Seq<char>>)
    requires
        names.len() > 0,
        forall|i: int| 0 <= i < names.len() ==> is_tool_name(#[trigger] names[i]),
    ensures
        inline_tools(join(names, seq![' '])) == Ok::<Seq<AllowedToolView>, SkillErrorView>(
            unscoped(names),
        ),
        inline_tools(seq!['['] + join(names, seq![',']) + seq![']']) == Ok::<
            Seq<AllowedToolView>,
            SkillErrorView,
        >(unscoped(names)),
{
    let none = Seq::<char>::empty();
    let text = join(names, seq![' ']);
    assert forall|i: int| 0 <= i < names.len() implies is_word(#[trigger] names[i]) by {
        assert(is_tool_name(names[i]));
    }
    lemma_words_join(names);
    lemma_entries(names);
    law_trim_takes_white_space_only(none, text, none);
    assert(none + text + none =~= text);
    assert(is_tool_name(names[0]));
    assert(text[0] != '[') by {
        if names[0][0] == '[' {
            assert(names[0].contains('['));
        }
    }
    let inner = join(names, seq![',']);
    let list = seq!['['] + inner + seq![']'];
    assert(is_trimmed(list));
    law_trim_takes_white_space_only(none, list, none);
    assert(none + list + none =~= list);
    assert(list.subrange(1, list.len() - 1) =~= inner);
    assert forall|i: int| 0 <= i < names.len() implies !(#[trigger] names[i]).contains(',') by {
        assert(is_tool_name(names[i]));
    }
    law_split_undoes_join(names, ',');
}

/// The sentence for an error tells what is wrong.
pub proof fn law_skill_errors_tell_why(error: &SkillError, text: String)
    requires
        call_ensures(SkillError::message, (error,), text),
    ensures
        match error@ {
            SkillErrorView::InvalidFrontmatter(why) => stand_in_order(seq![why], text@),
            SkillErrorView::InvalidName(why) => stand_in_order(seq![why], text@),
            SkillErrorView::InvalidDescription(why) => stand_in_order(seq![why], text@),
            SkillErrorView::NameMismatch { name, dir } => stand_in_order(seq![name, dir], text@),
            SkillErrorView::NotFound(why) => stand_in_order(seq![why], text@),
            SkillErrorView::InvalidBody(why) => stand_in_order(seq![why], text@),
            SkillErrorView::Io(why) => stand_in_order(seq![why], text@),
        },
{
    match error@ {
        SkillErrorView::InvalidFrontmatter(why) => lemma_behind(why, "invalid frontmatter: "@),
        SkillErrorView::InvalidName(why) => lemma_behind(why, "invalid skill name: "@),
        SkillErrorView::InvalidDescription(why) => lemma_behind(
            why,
            "invalid skill description: "@,
        ),
        SkillErrorView::NameMismatch { name, dir } => {
            let middle = "' does not match directory name '"@;
            lemma_behind(name, "skill name '"@);
            lemma_whole_stands(dir);
            lemma_order_within(seq![dir], middle, dir, "'"@);
            lemma_order_concat(
                seq![name],
                "skill name '"@ + name,
                seq![dir],
                middle + dir + "'"@,
            );
            assert(seq![name] + seq![dir] =~= seq![name, dir]);
            assert("skill name '"@ + name + (middle + dir + "'"@) =~= text@);
        },
        SkillErrorView::NotFound(why) => lemma_behind(why, "skill not found: "@),
        SkillErrorView::InvalidBody(why) => lemma_behind(why, "invalid skill body: "@),
        SkillErrorView::Io(why) => lemma_behind(why, "io error: "@),
    }
}

proof fn lemma_behind(piece: Seq<char>, head: Seq<char>)
    ensures
        stand_in_order(seq![piece], head + piece),
{
    lemma_whole_stands(piece);
    lemma_order_within(seq![piece], head, piece, Seq::empty());
    assert(head + piece + Seq::<char>::empty() =~= head + piece);
}

/// A skill that is loaded from a directory is the one that its file describes,
/// with the directory and the files found in it.
pub proof fn law_loaded_skills_are_those_in_the_file(
    dir: &str,
    dir_name: &str,
    content: String,
    resources: Vec<String>,
    skill: Skill,
)
    requires
        call_ensures(
            Skill::from_dir,
            (dir, dir_name, FoundFile::Text(content), resources),
            Ok::<Skill, SkillError>(skill),
        ),
    ensures
        skill@.name == dir_name@,
        skill@.base_dir == Some(dir@),
        skill@.resources.to_multiset() == views(resources@).to_multiset(),
        skill_of(content@) matches Ok(described) && skill@.description == described.description
            && skill@.body == described.body && skill@.allowed_tools == described.allowed_tools
            && skill@.metadata == described.metadata,
{
}

/// A resource that is found is returned as it is; a path that leads out of the
/// directory is refused.
pub proof fn law_found_resources_are_returned(
    skill: &Skill,
    name: &str,
    text: String,
    r: Result<String, SkillError>,
)
    requires
        call_ensures(Skill::load_reference, (skill, name, FoundFile::Text(text)), r),
    ensures
        skill@.base_dir is Some && stays_below(name@) ==> (r matches Ok(read) && read@ == text@),
        skill@.base_dir is None || !stays_below(name@) ==> r is Err,
{
}

/// The menu of a registry lists its skills in order.
pub proof fn law_menus_list_the_registry(registry: &SkillRegistry, menu: String)
    requires
        call_ensures(SkillRegistry::menu, (registry,), menu),
    ensures
        stand_in_order(menu_pieces(values(registry@)), menu@),
{
    law_menu_lists_every_skill(values(registry@));
}

/// A text that does not begin with the delimiter has no head and is refused; so
/// is one whose head is not closed.
pub proof fn law_texts_without_a_head_are_refused(content: Seq<char>, line: Seq<char>)
    requires
        !line.contains('\n'),
        trim(line) != "---"@,
    ensures
        content.len() > 0 && content[0] != '-' && content[0] != '\n' && content[0] != '\r'
            && content[0] != '\u{feff}' ==> frontmatter(content) is Err,
        frontmatter(Seq::empty()) is Err,
        frontmatter("---"@.push('\n') + line) is Err,
{
    reveal_strlit("---");
    if content.len() > 0 && content[0] != '-' && content[0] != '\n' && content[0] != '\r'
        && content[0] != '\u{feff}' {
        assert(without_prefix(content) == content);
        if starts_with(content, "---"@) {
            assert(content.take(3)[0] == "---"@[0]);
        }
    }
    lemma_opening(line);
    law_head_is_read_line_by_line(
        line,
        Seq::empty(),
        FrontmatterView::empty(),
        Block::TopLevel,
    );
}

/// A byte order mark and line breaks before the head do not matter.
pub proof fn law_marks_before_the_head_do_not_matter(breaks: Seq<char>, text: Seq<char>)
    requires
        forall|i: int| 0 <= i < breaks.len() ==> #[trigger] breaks[i] == '\n' || breaks[i] == '\r',
        text.len() > 0,
        text[0] == '-',
    ensures
        frontmatter(breaks + text) == frontmatter(text),
        frontmatter(seq!['\u{feff}'] + breaks + text) == frontmatter(text),
{
    let none = Seq::<char>::empty();
    let marked = seq!['\u{feff}'] + breaks + text;
    law_leading_line_breaks_are_skipped(breaks, text);
    assert(marked.skip(1) =~= breaks + text);
    assert(without_prefix(text) == text);
    if breaks.len() > 0 {
        assert(breaks[0] == '\n' || breaks[0] == '\r');
    } else {
        assert(breaks + text =~= text);
    }
    assert(without_prefix(breaks + text) == text);
    assert(without_prefix(marked) == text);
}

/// What a scan of a directory gives is the skills that could be loaded, in
/// order; what several directories hold together is each added to those before
/// it, without the directories that could not be read.
pub proof fn law_what_fails_to_load_is_skipped(
    found: Seq<Result<Skill, SkillError>>,
    skill: Skill,
    sources: Seq<Result<SkillRegistry, SkillError>>,
    registry: SkillRegistry,
    e: SkillError,
)
    ensures
        loaded(found.push(Ok(skill))) == loaded(found).push(skill@),
        loaded(found.push(Err(e))) == loaded(found),
        merged(sources.push(Err(e))) == merged(sources),
        merged(sources.push(Ok(registry))) == with_all(merged(sources), values(registry@)),
{
    assert(found.push(Ok(skill)).drop_last() =~= found);
    assert(found.push(Err(e)).drop_last() =~= found);
    assert(sources.push(Err(e)).drop_last() =~= sources);
    assert(sources.push(Ok(registry)).drop_last() =~= sources);
}

/// A skill tells its fields as they were read.
pub proof fn law_skills_tell_their_fields(
    skill: &Skill,
    name: &str,
    description: &str,
    body: &str,
    license: Option<&str>,
    compatibility: Option<&str>,
    metadata: &[(String, String)],
    tools: &[AllowedTool],
    resources: &[String],
    dir: Option<&str>,
)
    requires
        call_ensures(Skill::name, (skill,), name),
        call_ensures(Skill::description, (skill,), description),
        call_ensures(Skill::body, (skill,), body),
        call_ensures(Skill::license, (skill,), license),
        call_ensures(Skill::compatibility, (skill,), compatibility),
        call_ensures(Skill::metadata, (skill,), metadata),
        call_ensures(Skill::allowed_tools, (skill,), tools),
        call_ensures(Skill::resources, (skill,), resources),
        call_ensures(Skill::base_dir, (skill,), dir),
    ensures
        name@ == skill@.name && description@ == skill@.description && body@ == skill@.body,
        opt_str_view(license) == skill@.license,
        opt_str_view(compatibility) == skill@.compatibility,
        pairs_view(metadata@) == skill@.metadata,
        tools_view(tools@) == skill@.allowed_tools,
        views(resources@) == skill@.resources,
        opt_str_view(dir) == skill@.base_dir,
{
}

/// A skill has what its text says in every field.
pub proof fn law_parsed_skills_have_every_field(content: &str, skill: Skill)
    requires
        call_ensures(Skill::parse, (content,), Ok::<Skill, SkillError>(skill)),
    ensures
        frontmatter(content@) matches Ok((fm, body)) && fm.name == Some(skill@.name)
            && fm.description == Some(skill@.description) && skill@.body == body && skill@.license
            == fm.license && skill@.compatibility == fm.compatibility && skill@.metadata
            == fm.metadata && skill@.allowed_tools == fm.allowed_tools,
{
}

/// Whether a call is within a declaration goes by the tool and the beginning of
/// the arguments.
pub proof fn law_permissions(tool: &AllowedTool, name: &str, args: &str, r: bool)
    requires
        call_ensures(AllowedTool::permits, (tool, name, args), r),
    ensures
        r ==> tool.name@ == name@,
        tool.scope is None ==> (r <==> tool.name@ == name@),
        tool.scope matches Some(scope) ==> scope@.len() > 0 && scope@.last() != '*' ==> (r <==> tool.name@
            == name@ && scope@.len() <= args@.len() && args@.take(scope@.len() as int) == scope@),
{
}

} // verus!
