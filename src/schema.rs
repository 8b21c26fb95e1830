//! The two schema generations of a card and their fields.

use crate::json::{json_parsed, lookup, member, parse_json, Json};
use vstd::prelude::*;

verus! {

/// A member that a card schema names.
#[derive(Debug, Clone, Copy, PartialEq, Eq, Structural)]
pub enum Field {
    Spec,
    SpecVersion,
    Data,
    Name,
    Description,
    Personality,
    Scenario,
    FirstMes,
    MesExample,
    CreatorNotes,
    SystemPrompt,
    PostHistoryInstructions,
    AlternateGreetings,
    Tags,
    Creator,
    CharacterVersion,
    GroupOnlyGreetings,
}

impl Field {
    pub open spec fn key(self) -> Seq<char> {
        match self {
            Field::Spec => "spec"@,
            Field::SpecVersion => "spec_version"@,
            Field::Data => "data"@,
            Field::Name => "name"@,
            Field::Description => "description"@,
            Field::Personality => "personality"@,
            Field::Scenario => "scenario"@,
            Field::FirstMes => "first_mes"@,
            Field::MesExample => "mes_example"@,
            Field::CreatorNotes => "creator_notes"@,
            Field::SystemPrompt => "system_prompt"@,
            Field::PostHistoryInstructions => "post_history_instructions"@,
            Field::AlternateGreetings => "alternate_greetings"@,
            Field::Tags => "tags"@,
            Field::Creator => "creator"@,
            Field::CharacterVersion => "character_version"@,
            Field::GroupOnlyGreetings => "group_only_greetings"@,
        }
    }

    /// The JSON member name of the field.
    pub fn name(&self) -> (r: &'static str)
        ensures
            r@ == self.key(),
    {
        match self {
            Field::Spec => "spec",
            Field::SpecVersion => "spec_version",
            Field::Data => "data",
            Field::Name => "name",
            Field::Description => "description",
            Field::Personality => "personality",
            Field::Scenario => "scenario",
            Field::FirstMes => "first_mes",
            Field::MesExample => "mes_example",
            Field::CreatorNotes => "creator_notes",
            Field::SystemPrompt => "system_prompt",
            Field::PostHistoryInstructions => "post_history_instructions",
            Field::AlternateGreetings => "alternate_greetings",
            Field::Tags => "tags",
            Field::Creator => "creator",
            Field::CharacterVersion => "character_version",
            Field::GroupOnlyGreetings => "group_only_greetings",
        }
    }
}

/// Why a JSON text is not a card of one generation.
#[derive(Debug, Clone, Copy, PartialEq, Eq, Structural)]
pub enum SchemaError {
    /// The text is not one JSON value.
    NotJson,
    /// A required member is absent.
    MissingField(Field),
    /// A member holds a value of the wrong kind.
    TypeMismatch(Field),
    /// Every member has the generation's shape, but the spec identifier is
    /// not that of the generation.
    WrongSpec,
}

/// A required string member.
pub open spec fn req_str(j: Json, f: Field) -> Result<Seq<char>, SchemaError> {
    match member(j, f.key()) {
        None => Err(SchemaError::MissingField(f)),
        Some(Json::Str(s)) => Ok(s@),
        Some(_) => Err(SchemaError::TypeMismatch(f)),
    }
}

/// An optional string member: empty when absent.
pub open spec fn opt_str(j: Json, f: Field) -> Result<Seq<char>, SchemaError> {
    match member(j, f.key()) {
        None => Ok(Seq::empty()),
        Some(Json::Str(s)) => Ok(s@),
        Some(_) => Err(SchemaError::TypeMismatch(f)),
    }
}

pub open spec fn all_str(a: Seq<Json>) -> bool {
    forall|i: int| 0 <= i < a.len() ==> a[i] is Str
}

pub open spec fn strs(a: Seq<Json>) -> Seq<Seq<char>> {
    Seq::new(a.len(), |i: int| a[i]->Str_0@)
}

/// A member that is a list of strings; empty when absent unless `required`.
pub open spec fn str_list(j: Json, f: Field, required: bool) -> Result<Seq<Seq<char>>, SchemaError> {
    match member(j, f.key()) {
        None => if required {
            Err(SchemaError::MissingField(f))
        } else {
            Ok(Seq::empty())
        },
        Some(Json::Array(a)) => if all_str(a@) {
            Ok(strs(a@))
        } else {
            Err(SchemaError::TypeMismatch(f))
        },
        Some(_) => Err(SchemaError::TypeMismatch(f)),
    }
}

pub open spec fn strings_view(v: Seq<String>) -> Seq<Seq<char>> {
    v.map_values(|s: String| s@)
}

fn get(j: &Json, f: Field) -> (r: Option<&Json>)
    ensures
        match r {
            Some(v) => member(*j, f.key()) == Some(*v),
            None => member(*j, f.key()) is None,
        },
{
    match j {
        Json::Object(m) => lookup(m, f.name()),
        _ => None,
    }
}

fn get_str(j: &Json, f: Field, required: bool) -> (r: Result<String, SchemaError>)
    ensures
        match r {
            Ok(s) => (if required { req_str(*j, f) } else { opt_str(*j, f) }) == Ok::<
                Seq<char>,
                SchemaError,
            >(s@),
            Err(e) => (if required { req_str(*j, f) } else { opt_str(*j, f) }) == Err::<
                Seq<char>,
                SchemaError,
            >(e),
        },
{
    match get(j, f) {
        None => if required {
            Err(SchemaError::MissingField(f))
        } else {
            Ok(String::new())
        },
        Some(Json::Str(s)) => Ok(s.clone()),
        Some(_) => Err(SchemaError::TypeMismatch(f)),
    }
}

fn get_str_list(j: &Json, f: Field, required: bool) -> (r: Result<Vec<String>, SchemaError>)
    ensures
        match r {
            Ok(v) => str_list(*j, f, required) == Ok::<Seq<Seq<char>>, SchemaError>(strings_view(v@)),
            Err(e) => str_list(*j, f, required) == Err::<Seq<Seq<char>>, SchemaError>(e),
        },
{
    match get(j, f) {
        None => if required {
            Err(SchemaError::MissingField(f))
        } else {
            let v: Vec<String> = Vec::new();
            assert(strings_view(v@) =~= Seq::empty());
            Ok(v)
        },
        Some(Json::Array(a)) => {
            let mut out: Vec<String> = Vec::new();
            let mut i: usize = 0;
            while i < a.len()
                invariant
                    member(*j, f.key()) == Some(Json::Array(*a)),
                    i <= a@.len(),
                    out@.len() == i,
                    forall|x: int| 0 <= x < i ==> (#[trigger] a@[x]) is Str,
                    strings_view(out@) =~= strs(a@).subrange(0, i as int),
                decreases a@.len() - i,
            {
                match &a[i] {
                    Json::Str(s) => {
                        out.push(s.clone());
                    },
                    _ => {
                        assert(!(a@[i as int] is Str));
                        assert(!all_str(a@));
                        return Err(SchemaError::TypeMismatch(f));
                    },
                }
                i += 1;
                assert(strings_view(out@) =~= strs(a@).subrange(0, i as int));
            }
            assert(strs(a@).subrange(0, a@.len() as int) =~= strs(a@));
            Ok(out)
        },
        Some(_) => Err(SchemaError::TypeMismatch(f)),
    }
}

/// The fields of a card's `data` object, as values.
pub struct DataView {
    pub name: Seq<char>,
    pub description: Seq<char>,
    pub personality: Seq<char>,
    pub scenario: Seq<char>,
    pub first_mes: Seq<char>,
    pub mes_example: Seq<char>,
    pub creator_notes: Seq<char>,
    pub system_prompt: Seq<char>,
    pub post_history_instructions: Seq<char>,
    pub creator: Seq<char>,
    pub character_version: Seq<char>,
    pub alternate_greetings: Seq<Seq<char>>,
    pub tags: Seq<Seq<char>>,
}

/// The fields of a card's `data` object.
#[derive(Debug)]
pub struct CardData {
    pub name: String,
    pub description: String,
    pub personality: String,
    pub scenario: String,
    pub first_mes: String,
    pub mes_example: String,
    pub creator_notes: String,
    pub system_prompt: String,
    pub post_history_instructions: String,
    pub creator: String,
    pub character_version: String,
    pub alternate_greetings: Vec<String>,
    pub tags: Vec<String>,
}

impl View for CardData {
    type V = DataView;

    open spec fn view(&self) -> DataView {
        DataView {
            name: self.name@,
            description: self.description@,
            personality: self.personality@,
            scenario: self.scenario@,
            first_mes: self.first_mes@,
            mes_example: self.mes_example@,
            creator_notes: self.creator_notes@,
            system_prompt: self.system_prompt@,
            post_history_instructions: self.post_history_instructions@,
            creator: self.creator@,
            character_version: self.character_version@,
            alternate_greetings: strings_view(self.alternate_greetings@),
            tags: strings_view(self.tags@),
        }
    }
}

/// The `data` object `d` read as card fields: the first field in the
/// order of `DataView` that fails decides the error.
pub open spec fn data_of(d: Json) -> Result<DataView, SchemaError> {
    match req_str(d, Field::Name) {
        Err(e) => Err(e),
        Ok(name) => match req_str(d, Field::Description) {
        Err(e) => Err(e),
        Ok(description) => match req_str(d, Field::Personality) {
        Err(e) => Err(e),
        Ok(personality) => match req_str(d, Field::Scenario) {
        Err(e) => Err(e),
        Ok(scenario) => match req_str(d, Field::FirstMes) {
        Err(e) => Err(e),
        Ok(first_mes) => match req_str(d, Field::MesExample) {
        Err(e) => Err(e),
        Ok(mes_example) => match opt_str(d, Field::CreatorNotes) {
        Err(e) => Err(e),
        Ok(creator_notes) => match opt_str(d, Field::SystemPrompt) {
        Err(e) => Err(e),
        Ok(system_prompt) => match opt_str(d, Field::PostHistoryInstructions) {
        Err(e) => Err(e),
        Ok(post_history_instructions) => match str_list(d, Field::AlternateGreetings, false) {
        Err(e) => Err(e),
        Ok(alternate_greetings) => match str_list(d, Field::Tags, false) {
        Err(e) => Err(e),
        Ok(tags) => match opt_str(d, Field::Creator) {
        Err(e) => Err(e),
        Ok(creator) => match opt_str(d, Field::CharacterVersion) {
        Err(e) => Err(e),
        Ok(character_version) => Ok(DataView { name, description, personality, scenario, first_mes, mes_example, creator_notes, system_prompt, post_history_instructions, creator, character_version, alternate_greetings, tags }),
    },
    },
    },
    },
    },
    },
    },
    },
    },
    },
    },
    },
    }
}

fn read_data(d: &Json) -> (r: Result<CardData, SchemaError>)
    ensures
        match r {
            Ok(c) => data_of(*d) == Ok::<DataView, SchemaError>(c@),
            Err(e) => data_of(*d) == Err::<DataView, SchemaError>(e),
        },
{
    let name = match get_str(d, Field::Name, true) {
        Ok(v) => v,
        Err(e) => return Err(e),
    };
    let description = match get_str(d, Field::Description, true) {
        Ok(v) => v,
        Err(e) => return Err(e),
    };
    let personality = match get_str(d, Field::Personality, true) {
        Ok(v) => v,
        Err(e) => return Err(e),
    };
    let scenario = match get_str(d, Field::Scenario, true) {
        Ok(v) => v,
        Err(e) => return Err(e),
    };
    let first_mes = match get_str(d, Field::FirstMes, true) {
        Ok(v) => v,
        Err(e) => return Err(e),
    };
    let mes_example = match get_str(d, Field::MesExample, true) {
        Ok(v) => v,
        Err(e) => return Err(e),
    };
    let creator_notes = match get_str(d, Field::CreatorNotes, false) {
        Ok(v) => v,
        Err(e) => return Err(e),
    };
    let system_prompt = match get_str(d, Field::SystemPrompt, false) {
        Ok(v) => v,
        Err(e) => return Err(e),
    };
    let post_history_instructions = match get_str(d, Field::PostHistoryInstructions, false) {
        Ok(v) => v,
        Err(e) => return Err(e),
    };
    let alternate_greetings = match get_str_list(d, Field::AlternateGreetings, false) {
        Ok(v) => v,
        Err(e) => return Err(e),
    };
    let tags = match get_str_list(d, Field::Tags, false) {
        Ok(v) => v,
        Err(e) => return Err(e),
    };
    let creator = match get_str(d, Field::Creator, false) {
        Ok(v) => v,
        Err(e) => return Err(e),
    };
    let character_version = match get_str(d, Field::CharacterVersion, false) {
        Ok(v) => v,
        Err(e) => return Err(e),
    };
    Ok(CardData { name, description, personality, scenario, first_mes, mes_example, creator_notes, system_prompt, post_history_instructions, creator, character_version, alternate_greetings, tags })
}


/// The spec identifier of the newer generation.
pub open spec fn v3_spec_id() -> Seq<char> {
    "chara_card_v3"@
}

/// The `data` member of a card, which must be an object.
pub open spec fn data_member(j: Json) -> Result<Json, SchemaError> {
    match member(j, Field::Data.key()) {
        None => Err(SchemaError::MissingField(Field::Data)),
        Some(d) => if d is Object {
            Ok(d)
        } else {
            Err(SchemaError::TypeMismatch(Field::Data))
        },
    }
}

/// A card of the older generation, as values.
pub struct V2Model {
    pub spec: Seq<char>,
    pub spec_version: Seq<char>,
    pub data: DataView,
    pub source: Json,
}

/// A card of the newer generation, as values.
pub struct V3Model {
    pub spec: Seq<char>,
    pub spec_version: Seq<char>,
    pub data: DataView,
    pub group_only_greetings: Seq<Seq<char>>,
    pub source: Json,
}

/// `j` read as a card of the older generation: string `spec` and
/// `spec_version`, and a `data` object with the required fields.
pub open spec fn v2_of(j: Json) -> Result<V2Model, SchemaError> {
    match req_str(j, Field::Spec) {
        Err(e) => Err(e),
        Ok(spec) => match req_str(j, Field::SpecVersion) {
            Err(e) => Err(e),
            Ok(spec_version) => match data_member(j) {
                Err(e) => Err(e),
                Ok(d) => match data_of(d) {
                    Err(e) => Err(e),
                    Ok(data) => Ok(V2Model { spec, spec_version, data, source: j }),
                },
            },
        },
    }
}

/// `j` read as a card of the newer generation: as the older one, with a
/// list `group_only_greetings` in `data`; once the shape fits, the spec
/// identifier must be `chara_card_v3`.
pub open spec fn v3_of(j: Json) -> Result<V3Model, SchemaError> {
    match req_str(j, Field::Spec) {
        Err(e) => Err(e),
        Ok(spec) => match req_str(j, Field::SpecVersion) {
            Err(e) => Err(e),
            Ok(spec_version) => match data_member(j) {
                Err(e) => Err(e),
                Ok(d) => match data_of(d) {
                    Err(e) => Err(e),
                    Ok(data) => match str_list(d, Field::GroupOnlyGreetings, true) {
                        Err(e) => Err(e),
                        Ok(group_only_greetings) => if spec != v3_spec_id() {
                            Err(SchemaError::WrongSpec)
                        } else {
                            Ok(
                                V3Model {
                                    spec,
                                    spec_version,
                                    data,
                                    group_only_greetings,
                                    source: j,
                                },
                            )
                        },
                    },
                },
            },
        },
    }
}

/// A card of the older generation. `source` is the JSON it was read from,
/// members this library does not model included.
#[derive(Debug)]
pub struct CardV2 {
    pub spec: String,
    pub spec_version: String,
    pub data: CardData,
    pub source: Json,
}

/// A card of the newer generation.
#[derive(Debug)]
pub struct CardV3 {
    pub spec: String,
    pub spec_version: String,
    pub data: CardData,
    pub group_only_greetings: Vec<String>,
    pub source: Json,
}

impl View for CardV2 {
    type V = V2Model;

    open spec fn view(&self) -> V2Model {
        V2Model {
            spec: self.spec@,
            spec_version: self.spec_version@,
            data: self.data@,
            source: self.source,
        }
    }
}

impl View for CardV3 {
    type V = V3Model;

    open spec fn view(&self) -> V3Model {
        V3Model {
            spec: self.spec@,
            spec_version: self.spec_version@,
            data: self.data@,
            group_only_greetings: strings_view(self.group_only_greetings@),
            source: self.source,
        }
    }
}

fn data_object(j: &Json) -> (r: Result<&Json, SchemaError>)
    ensures
        match r {
            Ok(d) => data_member(*j) == Ok::<Json, SchemaError>(*d),
            Err(e) => data_member(*j) == Err::<Json, SchemaError>(e),
        },
{
    match get(j, Field::Data) {
        None => Err(SchemaError::MissingField(Field::Data)),
        Some(d) => match d {
            Json::Object(_) => Ok(d),
            _ => Err(SchemaError::TypeMismatch(Field::Data)),
        },
    }
}

impl CardV2 {
    /// Reads `j` as a card of the older generation.
    pub fn from_json(j: Json) -> (r: Result<CardV2, SchemaError>)
        ensures
            match r {
                Ok(c) => v2_of(j) == Ok::<V2Model, SchemaError>(c@),
                Err(e) => v2_of(j) == Err::<V2Model, SchemaError>(e),
            },
    {
        let spec = match get_str(&j, Field::Spec, true) {
            Ok(v) => v,
            Err(e) => return Err(e),
        };
        let spec_version = match get_str(&j, Field::SpecVersion, true) {
            Ok(v) => v,
            Err(e) => return Err(e),
        };
        let data = match data_object(&j) {
            Ok(d) => match read_data(d) {
                Ok(v) => v,
                Err(e) => return Err(e),
            },
            Err(e) => return Err(e),
        };
        Ok(CardV2 { spec, spec_version, data, source: j })
    }

    /// Parses JSON text as a card of the older generation.
    pub fn parse(text: &str) -> (r: Result<CardV2, SchemaError>)
        ensures
            match json_parsed(text@) {
                None => r == Err::<CardV2, SchemaError>(SchemaError::NotJson),
                Some(j) => match r {
                    Ok(c) => v2_of(j) == Ok::<V2Model, SchemaError>(c@),
                    Err(e) => v2_of(j) == Err::<V2Model, SchemaError>(e),
                },
            },
    {
        match parse_json(text) {
            None => Err(SchemaError::NotJson),
            Some(j) => CardV2::from_json(j),
        }
    }
}

impl CardV3 {
    /// Reads `j` as a card of the newer generation.
    pub fn from_json(j: Json) -> (r: Result<CardV3, SchemaError>)
        ensures
            match r {
                Ok(c) => v3_of(j) == Ok::<V3Model, SchemaError>(c@),
                Err(e) => v3_of(j) == Err::<V3Model, SchemaError>(e),
            },
    {
        match check_v3(j) {
            Ok(c) => Ok(c),
            Err((e, _)) => Err(e),
        }
    }

    /// Parses JSON text as a card of the newer generation.
    pub fn parse(text: &str) -> (r: Result<CardV3, SchemaError>)
        ensures
            match json_parsed(text@) {
                None => r == Err::<CardV3, SchemaError>(SchemaError::NotJson),
                Some(j) => match r {
                    Ok(c) => v3_of(j) == Ok::<V3Model, SchemaError>(c@),
                    Err(e) => v3_of(j) == Err::<V3Model, SchemaError>(e),
                },
            },
    {
        match parse_json(text) {
            None => Err(SchemaError::NotJson),
            Some(j) => CardV3::from_json(j),
        }
    }
}


/// Reads `j` as a card of the newer generation, or hands `j` back with the
/// reason it is not one.
pub fn check_v3(j: Json) -> (r: Result<CardV3, (SchemaError, Json)>)
    ensures
        match r {
            Ok(c) => v3_of(j) == Ok::<V3Model, SchemaError>(c@),
            Err((e, k)) => v3_of(j) == Err::<V3Model, SchemaError>(e) && k == j,
        },
{
    let spec = match get_str(&j, Field::Spec, true) {
        Ok(v) => v,
        Err(e) => return Err((e, j)),
    };
    let spec_version = match get_str(&j, Field::SpecVersion, true) {
        Ok(v) => v,
        Err(e) => return Err((e, j)),
    };
    let d = match data_object(&j) {
        Ok(d) => d,
        Err(e) => return Err((e, j)),
    };
    let data = match read_data(d) {
        Ok(v) => v,
        Err(e) => return Err((e, j)),
    };
    let group_only_greetings = match get_str_list(d, Field::GroupOnlyGreetings, true) {
        Ok(g) => g,
        Err(e) => return Err((e, j)),
    };
    if spec != "chara_card_v3".to_owned() {
        return Err((SchemaError::WrongSpec, j));
    }
    Ok(CardV3 { spec, spec_version, data, group_only_greetings, source: j })
}

} // verus!
