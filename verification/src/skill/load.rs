//! The tool by which the model loads a skill.

use vstd::prelude::*;

use super::laws::law_skill_is_handed_out_in_full;
use super::registry::SkillRegistry;
use super::{format_skill_content, skill_content, Skill, SkillView};
use crate::json::{json_views, member, Json, JsonMap, JsonView};
use crate::keyed::{lookup, values};
use crate::record::{
    field_views, items_fault, members_fault, missing_fault, record_fault, record_fault_of, Shape,
};
use crate::text::{concat3, contains_text, views};
use crate::text_laws::{lemma_order_within, lemma_whole_stands, stand_in_order};
use crate::tool::{
    ToolError, ToolErrorView, ToolMemoryPolicy, ToolOutput, ToolOutputView, ToolPolicy,
    ToolResult, ToolResultView, ToolSchema, ToolSchemaView,
};

verus! {

/// The tool `load_skill`: returns a skill's body once in a conversation.
#[derive(Debug, PartialEq, Eq)]
pub struct LoadSkillTool {
    enabled: Option<Vec<String>>,
    activated: Vec<String>,
}

pub struct LoadSkillView {
    /// The names of the skills that may be loaded; all where there is no list.
    pub enabled: Option<Seq<Seq<char>>>,
    /// The names of the skills that were loaded.
    pub activated: Set<Seq<char>>,
}

/// The texts of a list, without order.
pub open spec fn text_set(texts: Seq<String>) -> Set<Seq<char>> {
    Set::new(|text: Seq<char>| views(texts).contains(text))
}

impl View for LoadSkillTool {
    type V = LoadSkillView;

    closed spec fn view(&self) -> LoadSkillView {
        LoadSkillView {
            enabled: match self.enabled {
                Some(names) => Some(views(names@)),
                None => None,
            },
            activated: text_set(self.activated@),
        }
    }
}

/// Whether a skill of that name may be loaded.
pub open spec fn is_visible(enabled: Option<Seq<Seq<char>>>, name: Seq<char>) -> bool {
    match enabled {
        Some(names) => names.contains(name),
        None => true,
    }
}

/// The names of the skills that may be loaded, in the registry's order.
pub open spec fn visible_names(skills: Seq<SkillView>, enabled: Option<Seq<Seq<char>>>) -> Seq<
    Seq<char>,
>
    decreases skills.len(),
{
    if skills.len() == 0 {
        Seq::empty()
    } else if is_visible(enabled, skills.last().name) {
        visible_names(skills.drop_last(), enabled).push(skills.last().name)
    } else {
        visible_names(skills.drop_last(), enabled)
    }
}

/// Whether members can be added under `json`.
pub open spec fn holds_members(json: Option<JsonView>) -> bool {
    match json {
        None => true,
        Some(JsonView::Null) => true,
        Some(JsonView::Object(_)) => true,
        _ => false,
    }
}

/// The members of an object; none of what is absent or `null`.
pub open spec fn members(json: Option<JsonView>) -> Map<Seq<char>, JsonView> {
    match json {
        Some(JsonView::Object(map)) => map,
        _ => Map::empty(),
    }
}

/// Whether a schema can take a list of values for its property `name`.
pub open spec fn takes_names(parameters: JsonView) -> bool {
    let properties = member(parameters, "properties"@);
    &&& holds_members(Some(parameters))
    &&& holds_members(properties)
    &&& properties matches Some(value) ==> holds_members(member(value, "name"@))
}

/// The texts as a JSON array.
pub open spec fn texts_json(texts: Seq<Seq<char>>) -> JsonView {
    JsonView::Array(texts.map_values(|t: Seq<char>| JsonView::Text(t)))
}

/// The schema in which the property `name` is one of `names`.
pub open spec fn with_names(parameters: JsonView, names: Seq<Seq<char>>) -> JsonView {
    let properties = members(member(parameters, "properties"@));
    let name = members(member(JsonView::Object(properties), "name"@));
    JsonView::Object(
        members(Some(parameters)).insert(
            "properties"@,
            JsonView::Object(
                properties.insert(
                    "name"@,
                    JsonView::Object(name.insert("enum"@, texts_json(names))),
                ),
            ),
        ),
    )
}

/// The name in a call's arguments: the member `name` of an object, or the one
/// item of an array.
pub open spec fn argument_name(arguments: JsonView) -> Option<Seq<char>> {
    match arguments {
        JsonView::Array(items) => if items.len() == 1 && items[0] is Text {
            Some(items[0]->Text_0)
        } else {
            None
        },
        _ => match member(arguments, "name"@) {
            Some(JsonView::Text(name)) => Some(name),
            _ => None,
        },
    }
}

/// What is wrong with a call's arguments.
pub open spec fn arguments_fault(arguments: JsonView) -> Option<Seq<char>> {
    let fields = seq![("name"@, Shape::Text)];
    record_fault("LoadSkillArgs"@, fields, fields, arguments)
}

/// Arguments give a name exactly when nothing is wrong with them.
pub proof fn law_name_or_fault(arguments: JsonView)
    ensures
        argument_name(arguments) is None <==> arguments_fault(arguments) is Some,
{
    let fields = seq![("name"@, Shape::Text)];
    match arguments {
        JsonView::Array(items) => {
            reveal_with_fuel(items_fault, 2);
            assert(items_fault("LoadSkillArgs"@, fields, items, 0) == arguments_fault(arguments));
        },
        JsonView::Object(_) => {
            reveal_with_fuel(members_fault, 2);
            reveal_with_fuel(missing_fault, 2);
            assert(members_fault(fields, arguments, 0) is Some || missing_fault(fields, arguments, 0)
                == arguments_fault(arguments));
        },
        _ => {},
    }
}

/// The output of a load: it stays in memory whatever is trimmed.
pub open spec fn protected(text: Seq<char>) -> ToolOutputView {
    ToolOutputView {
        memory_policy: ToolMemoryPolicy::Protected,
        ..ToolOutputView::text(text)
    }
}

/// What the model is told when it loads a skill again.
pub open spec fn already_active(name: Seq<char>) -> Seq<char> {
    "skill '"@ + name + "' is already active in this conversation"@
}

/// What a load returns.
pub open spec fn load_result(
    tool: LoadSkillView,
    skills: Seq<(Seq<char>, SkillView)>,
    arguments: JsonView,
) -> Result<ToolOutputView, ToolErrorView> {
    match argument_name(arguments) {
        None => Err(ToolErrorView::InvalidArguments(arguments_fault(arguments)->0)),
        Some(name) => match lookup(skills, name) {
            None => Err(ToolErrorView::Execution("skill '"@ + name + "' not found"@)),
            Some(skill) => if !is_visible(tool.enabled, name) {
                Err(ToolErrorView::Execution("skill '"@ + name + "' is not enabled"@))
            } else if tool.activated.contains(name) {
                Ok(protected(already_active(name)))
            } else {
                Ok(protected(skill_content(skill)))
            },
        },
    }
}

/// The tool after a load.
pub open spec fn after_load(
    tool: LoadSkillView,
    skills: Seq<(Seq<char>, SkillView)>,
    arguments: JsonView,
) -> LoadSkillView {
    match (load_result(tool, skills, arguments), argument_name(arguments)) {
        (Ok(_), Some(name)) => LoadSkillView { activated: tool.activated.insert(name), ..tool },
        _ => tool,
    }
}

fn members_of(json: Option<&Json>) -> (r: JsonMap)
    ensures
        r@ == members(
            match json {
                Some(json) => Some(json@),
                None => None,
            },
        ),
{
    match json {
        Some(json) => match json.as_object() {
            Some(map) => map.clone(),
            None => JsonMap::new(),
        },
        None => JsonMap::new(),
    }
}

fn texts_json_of(texts: &Vec<String>) -> (r: Json)
    ensures
        r@ == texts_json(views(texts@)),
{
    let ghost all = views(texts@).map_values(|t: Seq<char>| JsonView::Text(t));
    let mut items: Vec<Json> = Vec::new();
    let mut i: usize = 0;
    while i < texts.len()
        invariant
            i <= texts@.len(),
            all == views(texts@).map_values(|t: Seq<char>| JsonView::Text(t)),
            json_views(items@) =~= all.take(i as int),
        decreases texts@.len() - i,
    {
        let ghost before = items@;
        let item = Json::text(texts[i].clone());
        items.push(item);
        assert(json_views(items@) =~= json_views(before).push(item@));
        assert(all[i as int] == item@);
        i = i + 1;
    }
    assert(all.take(i as int) =~= all);
    Json::array(items)
}

/// What is wrong with arguments that give no name.
fn arguments_fault_of(arguments: &Json) -> (r: String)
    requires
        argument_name(arguments@) is None,
    ensures
        arguments_fault(arguments@) == Some(r@),
{
    let fields = [("name", Shape::Text)];
    assert(field_views(fields@) =~= seq![("name"@, Shape::Text)]);
    proof {
        law_name_or_fault(arguments@);
    }
    match record_fault_of("LoadSkillArgs", &fields, &fields, arguments) {
        Some(fault) => fault,
        None => String::new(),
    }
}

fn argument_name_of(arguments: &Json) -> (r: Option<String>)
    ensures
        match r {
            Some(name) => argument_name(arguments@) == Some(name@),
            None => argument_name(arguments@) is None,
        },
{
    match arguments.as_array() {
        Some(items) => {
            assert(json_views(items@).len() == items@.len());
            if items.len() == 1 {
                assert(json_views(items@)[0] == items@[0]@);
                match items[0].as_str() {
                    Some(name) => Some(name.to_owned()),
                    None => None,
                }
            } else {
                None
            }
        },
        None => match arguments.get("name") {
            Some(value) => match value.as_str() {
                Some(name) => Some(name.to_owned()),
                None => None,
            },
            None => None,
        },
    }
}

impl LoadSkillTool {
    /// A tool for one conversation, in which the skills in `enabled` may be
    /// loaded, or all.
    pub fn new(enabled: Option<Vec<String>>) -> (r: LoadSkillTool)
        ensures
            r@.enabled == match enabled {
                Some(names) => Some(views(names@)),
                None => None,
            },
            r@.activated == Set::<Seq<char>>::empty(),
    {
        let activated: Vec<String> = Vec::new();
        assert(text_set(activated@) =~= Set::empty());
        LoadSkillTool { enabled, activated }
    }

    /// Whether a skill of that name may be loaded.
    pub fn is_enabled(&self, name: &str) -> (r: bool)
        ensures
            r == is_visible(self@.enabled, name@),
    {
        match &self.enabled {
            None => true,
            Some(names) => contains_text(names, name),
        }
    }

    /// The names of the skills that may be loaded, in the registry's order.
    fn available(&self, skills: &Vec<Skill>) -> (r: Vec<String>)
        ensures
            views(r@) == visible_names(super::registry::skill_views(skills@), self@.enabled),
    {
        let ghost all = super::registry::skill_views(skills@);
        let mut out: Vec<String> = Vec::new();
        let mut i: usize = 0;
        assert(all.take(0) =~= Seq::empty());
        assert(views(out@) =~= Seq::empty());
        while i < skills.len()
            invariant
                i <= skills@.len(),
                all == super::registry::skill_views(skills@),
                views(out@) == visible_names(all.take(i as int), self@.enabled),
            decreases skills@.len() - i,
        {
            let ghost head = all.take(i + 1);
            assert(head.drop_last() =~= all.take(i as int));
            assert(head.last() == skills@[i as int]@);
            let name = skills[i].name();
            if self.is_enabled(name) {
                let ghost before = out@;
                out.push(name.to_owned());
                assert(views(out@) =~= views(before).push(name@));
            }
            i = i + 1;
        }
        assert(all.take(i as int) =~= all);
        out
    }

    /// The tool as the model sees it: the schema `parameters` of the
    /// arguments, in which the name is one of the skills that may be loaded.
    pub fn schema(&self, registry: &SkillRegistry, parameters: &Json) -> (r: ToolSchema)
        requires
            takes_names(parameters@),
        ensures
            r@ == (ToolSchemaView {
                name: "load_skill"@,
                description:
                    "Load and activate a skill: the name argument is the skill name, and the skill body is returned. The available skills are listed in the system prompt."@,
                parameters: with_names(
                    parameters@,
                    visible_names(values(registry@), self@.enabled),
                ),
                policy: ToolPolicy {
                    memory_policy: ToolMemoryPolicy::Protected,
                    ..ToolPolicy::plain()
                },
                metadata: Map::empty(),
            }),
    {
        let names = self.available(&registry.skills());
        let properties = members_of(parameters.get("properties"));
        let name = members_of(properties.get("name"));
        let with_enum = Json::object(name.put("enum".to_owned(), texts_json_of(&names)));
        let properties = Json::object(properties.put("name".to_owned(), with_enum));
        let parameters = Json::object(
            members_of(Some(parameters)).put("properties".to_owned(), properties),
        );
        let mut policy = ToolPolicy::default();
        policy.memory_policy = ToolMemoryPolicy::Protected;
        ToolSchema::new(
            "load_skill",
            "Load and activate a skill: the name argument is the skill name, and the skill body is returned. The available skills are listed in the system prompt.",
            parameters,
        ).with_policy(policy)
    }

    /// Loads the skill that the arguments name: its body the first time, a
    /// notice from then on.
    pub fn call(&mut self, registry: &SkillRegistry, arguments: &Json) -> (r: Result<
        ToolResult,
        ToolError,
    >)
        ensures
            match load_result(old(self)@, registry@, arguments@) {
                Ok(output) => r matches Ok(result) && result@ == ToolResultView::Output(output),
                Err(error) => r matches Err(e) && e@ == error,
            },
            final(self)@ == after_load(old(self)@, registry@, arguments@),
    {
        let name = match argument_name_of(arguments) {
            Some(name) => name,
            None => {
                return Err(
                    ToolError::InvalidArguments(arguments_fault_of(arguments)),
                );
            },
        };
        let skill = match registry.get(name.as_str()) {
            Some(skill) => skill,
            None => {
                return Err(
                    ToolError::Execution(concat3("skill '", name.as_str(), "' not found")),
                );
            },
        };
        if !self.is_enabled(name.as_str()) {
            return Err(
                ToolError::Execution(concat3("skill '", name.as_str(), "' is not enabled")),
            );
        }
        if contains_text(&self.activated, name.as_str()) {
            assert(self@.activated.insert(name@) =~= self@.activated);
            let notice = concat3(
                "skill '",
                name.as_str(),
                "' is already active in this conversation",
            );
            return Ok(
                ToolResult::Output(
                    ToolOutput::text(notice).with_memory_policy(ToolMemoryPolicy::Protected),
                ),
            );
        }
        let ghost before = self.activated@;
        let ghost loaded = name@;
        self.activated.push(name);
        proof {
            assert(views(self.activated@) =~= views(before).push(loaded));
            assert(text_set(self.activated@) =~= text_set(before).insert(loaded)) by {
                assert forall|t: Seq<char>| views(self.activated@).contains(t) == (views(
                    before,
                ).contains(t) || t == loaded) by {
                    lemma_push_contains(views(before), loaded, t);
                }
            }
        }
        Ok(
            ToolResult::Output(
                ToolOutput::text(format_skill_content(&skill)).with_memory_policy(
                    ToolMemoryPolicy::Protected,
                ),
            ),
        )
    }
}

proof fn lemma_push_contains(s: Seq<Seq<char>>, a: Seq<char>, t: Seq<char>)
    ensures
        s.push(a).contains(t) == (s.contains(t) || t == a),
{
    let p = s.push(a);
    if s.contains(t) {
        let i = choose|i: int| 0 <= i < s.len() && s[i] == t;
        assert(p[i] == t);
    }
    if t == a {
        assert(p[s.len() as int] == t);
    }
    if p.contains(t) {
        let i = choose|i: int| 0 <= i < p.len() && p[i] == t;
        if i < s.len() {
            assert(s[i] == t);
        }
    }
}

/// In one conversation a skill's body is handed out once: after a load that
/// succeeded, every further load of that skill gives a notice that does not
/// depend on the skill, also when the skill was replaced meanwhile.
pub proof fn law_body_is_injected_once(
    tool: LoadSkillView,
    skills: Seq<(Seq<char>, SkillView)>,
    later: Seq<(Seq<char>, SkillView)>,
    name: Seq<char>,
    arguments: JsonView,
)
    requires
        argument_name(arguments) == Some(name),
        load_result(tool, skills, arguments) is Ok,
        lookup(later, name) is Some,
    ensures
        load_result(after_load(tool, skills, arguments), later, arguments) == Ok::<
            ToolOutputView,
            ToolErrorView,
        >(protected(already_active(name))),
{
}

/// No load takes a skill back: what was active stays active.
pub proof fn law_active_skills_stay_active(
    tool: LoadSkillView,
    skills: Seq<(Seq<char>, SkillView)>,
    arguments: JsonView,
)
    ensures
        tool.activated.subset_of(after_load(tool, skills, arguments).activated),
        after_load(tool, skills, arguments).enabled == tool.enabled,
{
}

/// Whatever a load returns is kept when memory is trimmed.
pub proof fn law_loaded_skills_are_protected(
    tool: LoadSkillView,
    skills: Seq<(Seq<char>, SkillView)>,
    arguments: JsonView,
)
    ensures
        load_result(tool, skills, arguments) matches Ok(output) ==> output.memory_policy
            == ToolMemoryPolicy::Protected,
{
}

/// The model is offered just the registered skills that it may load.
pub proof fn law_offered_names_can_be_loaded(
    skills: Seq<SkillView>,
    enabled: Option<Seq<Seq<char>>>,
    name: Seq<char>,
)
    ensures
        visible_names(skills, enabled).contains(name) <==> is_visible(enabled, name) && exists|
            i: int,
        |
            0 <= i < skills.len() && (#[trigger] skills[i]).name == name,
    decreases skills.len(),
{
    if skills.len() > 0 {
        let head = skills.drop_last();
        let last = skills.last();
        law_offered_names_can_be_loaded(head, enabled, name);
        lemma_push_contains(visible_names(head, enabled), last.name, name);
        if exists|i: int| 0 <= i < head.len() && (#[trigger] head[i]).name == name {
            let i = choose|i: int| 0 <= i < head.len() && (#[trigger] head[i]).name == name;
            assert(skills[i].name == name);
        }
        if exists|i: int| 0 <= i < skills.len() && (#[trigger] skills[i]).name == name {
            let i = choose|i: int| 0 <= i < skills.len() && (#[trigger] skills[i]).name == name;
            if i < head.len() {
                assert(head[i].name == name);
            }
        }
        assert(skills[skills.len() - 1] == last);
    }
}

/// A skill that may be loaded and was not yet is handed out in full; loaded
/// again, it gives a notice with its name in place of the body; and a load that
/// is refused says which skill it was.
#[verifier::rlimit(40)]
pub proof fn law_loads_hand_out_the_skill(
    registry: &SkillRegistry,
    arguments: &Json,
    name: Seq<char>,
    r: Result<ToolResult, ToolError>,
)
    requires
        arguments@ is Object,
        member(arguments@, "name"@) == Some(JsonView::Text(name)),
    ensures
        forall|tool: &mut LoadSkillTool| #[trigger]
            call_ensures(LoadSkillTool::call, (tool, registry, arguments), r) ==> {
                let allowed = match tool@.enabled {
                    Some(names) => names.contains(name),
                    None => true,
                };
                &&& lookup(registry@, name) is None || !allowed ==> (r matches Err(
                    ToolError::Execution(why),
                ) && stand_in_order(seq![name], why@)) && final(tool)@ == tool@
                &&& lookup(registry@, name) is Some && allowed ==> {
                    let skill = lookup(registry@, name)->0;
                    &&& r matches Ok(ToolResult::Output(output)) && output.memory_policy
                        == ToolMemoryPolicy::Protected && if tool@.activated.contains(name) {
                        stand_in_order(seq![name], output.content@)
                    } else {
                        stand_in_order(
                            seq![skill.name, skill.body] + skill.resources,
                            output.content@,
                        )
                    }
                    &&& final(tool)@.activated == tool@.activated.insert(name)
                    &&& final(tool)@.enabled == tool@.enabled
                }
            },
{
    let head = "skill '"@;
    lemma_whole_stands(name);
    lemma_order_within(seq![name], head, name, "' not found"@);
    lemma_order_within(seq![name], head, name, "' is not enabled"@);
    lemma_order_within(seq![name], head, name, "' is already active in this conversation"@);
    if let Some(skill) = lookup(registry@, name) {
        law_skill_is_handed_out_in_full(skill);
    }
}

/// The schema that the model sees names just the skills that may be loaded, as
/// the values of its property `name`; every other member is as it was.
pub proof fn law_schema_lists_the_skills(
    parameters: JsonView,
    names: Seq<Seq<char>>,
    i: int,
    key: Seq<char>,
)
    requires
        takes_names(parameters),
    ensures
        ({
            let schema = with_names(parameters, names);
            let properties = member(schema, "properties"@)->0;
            let name = member(properties, "name"@)->0;
            &&& member(schema, "properties"@) is Some
            &&& member(properties, "name"@) is Some
            &&& member(name, "enum"@) matches Some(JsonView::Array(items)) && items.len()
                == names.len() && (0 <= i < names.len() ==> items[i] == JsonView::Text(names[i]))
            &&& key != "properties"@ ==> member(schema, key) == member(parameters, key)
        }),
{
}

/// Whether a list of names allows a skill goes by the name; without a list, all
/// are allowed.
pub proof fn law_enabled_names(names: Seq<Seq<char>>, name: Seq<char>)
    ensures
        is_visible(Some(names), name) <==> names.contains(name),
        is_visible(None, name),
{
}

} // verus!
