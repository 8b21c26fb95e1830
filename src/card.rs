//! Cards read from and written to PNG images or JSON text: the chunk, the
//! payload and the two schema generations put together.

use crate::json::{
    json_parsed, json_rendered, parse_json, pretty_json, pretty_of, render_json_text, Json,
};
use crate::payload::{
    decode, decoded_text, encode, encoded_text, lemma_base64_len, MAX_ENCODE_LEN,
};
use crate::png::{
    bytes_result, chunk_end, find, insert_text_chunk, insertion, lemma_inserted_chunk_found,
    lemma_remove_after_insert, lemma_remove_idempotent, read_text_chunk, remove_text_chunk,
    removal, scan, PngError, Scan, MAX_CHUNK_DATA,
};
use crate::schema::{
    strings_view, v2_of, v3_of, CardData, CardV2, CardV3, DataView, SchemaError, V2Model, V3Model,
};
use vstd::prelude::*;
use vstd::string::StringExecFns;
use vstd::utf8::encode_utf8;

verus! {

/// Why no card could be read.
#[derive(Debug, Clone, Copy, PartialEq, Eq, Structural)]
pub enum CardError {
    /// The image is not a structurally valid PNG.
    MalformedContainer,
    /// The image holds no card chunk.
    NoData,
    /// The payload is a card of neither generation; both reasons are kept.
    UnrecognizedCardFormat { v3: SchemaError, v2: SchemaError },
}

/// A card of either generation.
#[derive(Debug)]
pub enum Card {
    V2(CardV2),
    V3(CardV3),
}

pub enum CardModel {
    V2(V2Model),
    V3(V3Model),
}

impl View for Card {
    type V = CardModel;

    open spec fn view(&self) -> CardModel {
        match self {
            Card::V2(c) => CardModel::V2(c@),
            Card::V3(c) => CardModel::V3(c@),
        }
    }
}

impl Card {
    /// The card's fields are those that its `source` JSON gives.
    pub open spec fn wf(&self) -> bool {
        match self {
            Card::V2(c) => v2_of(c.source) == Ok::<V2Model, SchemaError>(c@),
            Card::V3(c) => v3_of(c.source) == Ok::<V3Model, SchemaError>(c@),
        }
    }
}

/// Keyword of the text chunk that carries a card: `chara`.
pub open spec fn card_keyword() -> Seq<u8> {
    seq![99u8, 104u8, 97u8, 114u8, 97u8]
}

fn keyword() -> (r: Vec<u8>)
    ensures
        r@ == card_keyword(),
{
    let r: Vec<u8> = vec![99, 104, 97, 114, 97];
    assert(r@ =~= card_keyword());
    r
}

/// The card in parsed JSON: the newer generation when it fits, else the older
/// one, else both reasons.
pub open spec fn resolved(j: Option<Json>) -> Result<CardModel, CardError> {
    match j {
        None => Err(
            CardError::UnrecognizedCardFormat { v3: SchemaError::NotJson, v2: SchemaError::NotJson },
        ),
        Some(j) => match v3_of(j) {
            Ok(c) => Ok(CardModel::V3(c)),
            Err(e3) => match v2_of(j) {
                Ok(c) => Ok(CardModel::V2(c)),
                Err(e2) => Err(CardError::UnrecognizedCardFormat { v3: e3, v2: e2 }),
            },
        },
    }
}

pub open spec fn card_result(r: Result<Card, CardError>) -> Result<CardModel, CardError> {
    match r {
        Ok(c) => Ok(c@),
        Err(e) => Err(e),
    }
}

/// Reads a parsed JSON value as a card, newer generation first.
pub fn resolve(j: Json) -> (r: Result<Card, CardError>)
    ensures
        card_result(r) == resolved(Some(j)),
        r matches Ok(c) ==> c.wf(),
{
    let (e3, j) = match crate::schema::check_v3(j) {
        Ok(c) => return Ok(Card::V3(c)),
        Err(x) => x,
    };
    match CardV2::from_json(j) {
        Ok(c) => Ok(Card::V2(c)),
        Err(e2) => Err(CardError::UnrecognizedCardFormat { v3: e3, v2: e2 }),
    }
}

/// Reads a card from JSON text.
pub fn read_card_from_json(text: &str) -> (r: Result<Card, CardError>)
    ensures
        card_result(r) == resolved(json_parsed(text@)),
        r matches Ok(c) ==> c.wf(),
        text@.len() == 0 ==> card_result(r) == Err::<CardModel, CardError>(
            CardError::UnrecognizedCardFormat { v3: SchemaError::NotJson, v2: SchemaError::NotJson },
        ),
{
    match parse_json(text) {
        None => Err(
            CardError::UnrecognizedCardFormat { v3: SchemaError::NotJson, v2: SchemaError::NotJson },
        ),
        Some(j) => resolve(j),
    }
}


/// The text that the card chunk of an image carries: `None` without such a
/// chunk, and empty text where the chunk's bytes do not decode.
pub open spec fn payload_of(s: Seq<u8>) -> Result<Option<Seq<char>>, PngError> {
    match find(s, Some(card_keyword())) {
        Scan::Malformed => Err(PngError::Malformed),
        Scan::Absent => Ok(None),
        Scan::At(p) => Ok(
            Some(
                match decoded_text(s.subrange(p + 9 + card_keyword().len(), chunk_end(s, p) - 4)) {
                    Ok(t) => t,
                    Err(_) => Seq::empty(),
                },
            ),
        ),
    }
}

/// The decoded text of the card chunk, without reading it as a card.
pub fn extract_payload_text(image: &[u8]) -> (r: Result<Option<String>, PngError>)
    ensures
        match r {
            Ok(Some(t)) => payload_of(image@) == Ok::<Option<Seq<char>>, PngError>(Some(t@)),
            Ok(None) => payload_of(image@) == Ok::<Option<Seq<char>>, PngError>(None),
            Err(e) => payload_of(image@) == Err::<Option<Seq<char>>, PngError>(e),
        },
{
    let key = keyword();
    match read_text_chunk(image, key.as_slice()) {
        Err(e) => Err(e),
        Ok(None) => Ok(None),
        Ok(Some(raw)) => match decode(raw.as_slice()) {
            Ok(t) => Ok(Some(t)),
            Err(_) => Ok(Some(String::new())),
        },
    }
}

/// The card that an image carries.
pub open spec fn image_card(s: Seq<u8>) -> Result<CardModel, CardError> {
    match payload_of(s) {
        Err(_) => Err(CardError::MalformedContainer),
        Ok(None) => Err(CardError::NoData),
        Ok(Some(t)) => resolved(json_parsed(t)),
    }
}

/// Reads the card that a PNG image carries.
pub fn read_card(image: &[u8]) -> (r: Result<Card, CardError>)
    ensures
        card_result(r) == image_card(image@),
        r matches Ok(c) ==> c.wf(),
        payload_of(image@) == Ok::<Option<Seq<char>>, PngError>(Some(Seq::empty())) ==> card_result(r)
            == Err::<CardModel, CardError>(
            CardError::UnrecognizedCardFormat { v3: SchemaError::NotJson, v2: SchemaError::NotJson },
        ),
{
    match extract_payload_text(image) {
        Err(_) => Err(CardError::MalformedContainer),
        Ok(None) => Err(CardError::NoData),
        Ok(Some(text)) => read_card_from_json(text.as_str()),
    }
}

/// The text written out for an image's payload: pretty-printed where it is
/// JSON, as it stands where not, `NO TEXT` where there is no card chunk.
pub open spec fn payload_dump(s: Seq<u8>) -> Result<Seq<char>, PngError> {
    match payload_of(s) {
        Err(e) => Err(e),
        Ok(t) => {
            let text = match t {
                Some(t) => t,
                None => "NO TEXT"@,
            };
            Ok(
                match pretty_of(text) {
                    Some(p) => p,
                    None => text,
                },
            )
        },
    }
}

/// The payload of an image as text to write out.
pub fn payload_json_text(image: &[u8]) -> (r: Result<String, PngError>)
    ensures
        match r {
            Ok(t) => payload_dump(image@) == Ok::<Seq<char>, PngError>(t@),
            Err(e) => payload_dump(image@) == Err::<Seq<char>, PngError>(e),
        },
        payload_of(image@) == Ok::<Option<Seq<char>>, PngError>(Some(Seq::empty())) ==> (r matches Ok(
            t,
        ) && t@.len() == 0),
{
    match extract_payload_text(image) {
        Err(e) => Err(e),
        Ok(Some(t)) => Ok(pretty_json(t.as_str())),
        Ok(None) => Ok(pretty_json("NO TEXT")),
    }
}

/// The image without its card chunk; every other byte is kept in order.
pub fn strip_metadata(image: &[u8]) -> (r: Result<Vec<u8>, PngError>)
    ensures
        bytes_result(r) == removal(image@, card_keyword()),
{
    let key = keyword();
    remove_text_chunk(image, key.as_slice())
}

/// The image carrying `text`: any card chunk goes, then a new one.
pub open spec fn embedding(s: Seq<u8>, text: Seq<char>) -> Result<Seq<u8>, PngError> {
    match removal(s, card_keyword()) {
        Err(e) => Err(e),
        Ok(t) => insertion(t, card_keyword(), encoded_text(text)),
    }
}

/// Puts `json_text` into the image as its card, in place of any card chunk
/// it had.
pub fn embed_payload(image: &[u8], json_text: &str) -> (r: Result<Vec<u8>, PngError>)
    requires
        encode_utf8(json_text@).len() <= MAX_ENCODE_LEN,
    ensures
        bytes_result(r) == embedding(image@, json_text@),
        !(find(image@, Some(card_keyword())) is At) ==> (r matches Ok(j) ==> payload_of(j@) == Ok::<
            Option<Seq<char>>,
            PngError,
        >(Some(json_text@))),
        find(image@, Some(card_keyword())) == Scan::Absent && find(image@, None) is At && 6 + 4 * ((
        encode_utf8(json_text@).len() + 2) / 3) <= MAX_CHUNK_DATA ==> r is Ok,
{
    let key = keyword();
    match remove_text_chunk(image, key.as_slice()) {
        Err(e) => Err(e),
        Ok(bare) => {
            let raw = encode(json_text);
            proof {
                lemma_base64_len(encode_utf8(json_text@));
                if find(image@, Some(card_keyword())) == Scan::Absent {
                    lemma_inserted_chunk_found(bare@, card_keyword(), raw@);
                }
            }
            insert_text_chunk(bare.as_slice(), key.as_slice(), raw.as_slice())
        },
    }
}

/// Stripping an image that a card was just embedded in gives back the image,
/// when it had no card chunk before.
pub proof fn lemma_strip_after_embed(image: Seq<u8>, text: Seq<char>)
    requires
        !(find(image, Some(card_keyword())) is At),
    ensures
        embedding(image, text) matches Ok(j) ==> removal(j, card_keyword()) == Ok::<
            Seq<u8>,
            PngError,
        >(image),
{
    if find(image, Some(card_keyword())) == Scan::Absent {
        lemma_remove_after_insert(image, card_keyword(), encoded_text(text));
    }
}

/// Stripping twice is stripping once, when the image has at most one card
/// chunk and its chunks run whole to the end.
pub proof fn lemma_strip_idempotent(image: Seq<u8>)
    requires
        find(image, Some(card_keyword())) matches Scan::At(p) ==> scan(
            image,
            chunk_end(image, p),
            Some(card_keyword()),
        ) == Scan::Absent,
    ensures
        removal(image, card_keyword()) matches Ok(j) ==> removal(j, card_keyword()) == Ok::<
            Seq<u8>,
            PngError,
        >(j),
{
    lemma_remove_idempotent(image, card_keyword());
}

/// JSON that is a card of the newer generation resolves to that generation,
/// whether or not it also fits the older one.
pub proof fn lemma_newer_generation_first(j: Json)
    requires
        v3_of(j) is Ok,
    ensures
        resolved(Some(j)) == Ok::<CardModel, CardError>(CardModel::V3(v3_of(j)->Ok_0)),
{
}

/// JSON that fits only the older generation resolves to it, with no error.
pub proof fn lemma_older_generation_fallback(j: Json)
    requires
        v3_of(j) is Err,
        v2_of(j) is Ok,
    ensures
        resolved(Some(j)) == Ok::<CardModel, CardError>(CardModel::V2(v2_of(j)->Ok_0)),
{
}

pub open spec fn source_of(c: CardModel) -> Json {
    match c {
        CardModel::V2(m) => m.source,
        CardModel::V3(m) => m.source,
    }
}

/// The card's JSON, pretty-printed. A card read from JSON text reads back
/// from this text as the same card.
pub fn render_json(card: &Card) -> (r: String)
    requires
        card.wf(),
    ensures
        r@ == json_rendered(source_of(card@)),
        (exists|t: Seq<char>| resolved(json_parsed(t)) == Ok::<CardModel, CardError>(card@))
            ==> resolved(json_parsed(r@)) == Ok::<CardModel, CardError>(card@),
{
    let src = match card {
        Card::V2(c) => &c.source,
        Card::V3(c) => &c.source,
    };
    let r = render_json_text(src);
    proof {
        if exists|t: Seq<char>| resolved(json_parsed(t)) == Ok::<CardModel, CardError>(card@) {
            let t = choose|t: Seq<char>| resolved(json_parsed(t)) == Ok::<CardModel, CardError>(card@);
            assert(json_parsed(t) == Some(source_of(card@)));
        }
    }
    r
}


/// The strings joined with `, `.
pub open spec fn joined(v: Seq<Seq<char>>) -> Seq<char>
    decreases v.len(),
{
    if v.len() == 0 {
        Seq::empty()
    } else if v.len() == 1 {
        v[0]
    } else {
        joined(v.drop_last()) + ", "@ + v.last()
    }
}

pub open spec fn labelled(label: Seq<char>, value: Seq<char>) -> Seq<char> {
    label + value + "\n"@
}

/// The summary lines of a card, in this order.
pub open spec fn summary(spec: Seq<char>, version: Seq<char>, d: DataView) -> Seq<char> {
    labelled("Spec: "@, spec + " "@ + version) + labelled("Name: "@, d.name) + labelled(
        "Description: "@,
        d.description,
    ) + labelled("Personality: "@, d.personality) + labelled("Scenario: "@, d.scenario)
        + labelled("First message: "@, d.first_mes) + labelled("Example dialogue: "@, d.mes_example)
        + labelled("Creator: "@, d.creator) + labelled("Creator notes: "@, d.creator_notes)
        + labelled("Version: "@, d.character_version) + labelled("Tags: "@, joined(d.tags))
}

/// The human-readable summary of a card.
pub open spec fn display_text(c: CardModel) -> Seq<char> {
    match c {
        CardModel::V2(m) => summary(m.spec, m.spec_version, m.data),
        CardModel::V3(m) => summary(m.spec, m.spec_version, m.data) + labelled(
            "Group-only greetings: "@,
            joined(m.group_only_greetings),
        ),
    }
}

fn push_line(out: &mut String, label: &str, value: &str)
    ensures
        final(out)@ == old(out)@ + labelled(label@, value@),
{
    out.append(label);
    out.append(value);
    out.append("\n");
    assert(out@ =~= old(out)@ + labelled(label@, value@));
}

fn push_joined_line(out: &mut String, label: &str, items: &Vec<String>)
    ensures
        final(out)@ == old(out)@ + labelled(label@, joined(strings_view(items@))),
{
    out.append(label);
    let ghost start = out@;
    let mut i: usize = 0;
    while i < items.len()
        invariant
            i <= items@.len(),
            out@ == start + joined(strings_view(items@).subrange(0, i as int)),
        decreases items@.len() - i,
    {
        let ghost before = out@;
        if i > 0 {
            out.append(", ");
        }
        out.append(items[i].as_str());
        let ghost v = strings_view(items@).subrange(0, i + 1);
        assert(v.drop_last() =~= strings_view(items@).subrange(0, i as int));
        if i == 0 {
            assert(joined(v.drop_last()) =~= Seq::empty());
        }
        i += 1;
        assert(out@ =~= start + joined(strings_view(items@).subrange(0, i as int)));
    }
    assert(strings_view(items@).subrange(0, items@.len() as int) =~= strings_view(items@));
    out.append("\n");
    assert(out@ =~= old(out)@ + labelled(label@, joined(strings_view(items@))));
}

fn push_summary(out: &mut String, spec: &String, version: &String, d: &CardData)
    ensures
        final(out)@ == old(out)@ + summary(spec@, version@, d@),
{
    let mut head = spec.clone();
    head.append(" ");
    head.append(version.as_str());
    push_line(out, "Spec: ", head.as_str());
    push_line(out, "Name: ", d.name.as_str());
    push_line(out, "Description: ", d.description.as_str());
    push_line(out, "Personality: ", d.personality.as_str());
    push_line(out, "Scenario: ", d.scenario.as_str());
    push_line(out, "First message: ", d.first_mes.as_str());
    push_line(out, "Example dialogue: ", d.mes_example.as_str());
    push_line(out, "Creator: ", d.creator.as_str());
    push_line(out, "Creator notes: ", d.creator_notes.as_str());
    push_line(out, "Version: ", d.character_version.as_str());
    push_joined_line(out, "Tags: ", &d.tags);
    assert(out@ =~= old(out)@ + summary(spec@, version@, d@));
}

/// The card as labelled lines for a terminal.
pub fn render_display(card: &Card) -> (r: String)
    ensures
        r@ == display_text(card@),
{
    let mut out = String::new();
    match card {
        Card::V2(c) => {
            push_summary(&mut out, &c.spec, &c.spec_version, &c.data);
        },
        Card::V3(c) => {
            push_summary(&mut out, &c.spec, &c.spec_version, &c.data);
            push_joined_line(&mut out, "Group-only greetings: ", &c.group_only_greetings);
        },
    }
    assert(out@ =~= display_text(card@));
    out
}


/// Where batch processing sets aside an image whose card could not be read.
#[derive(Debug, Clone, Copy, PartialEq, Eq, Structural)]
pub enum IssueKind {
    /// The payload is a card of neither generation.
    Format,
    /// The image carries no card.
    NoData,
    /// Anything else.
    Other,
}

/// The issue kind of a read failure.
pub fn issue_kind(e: CardError) -> (r: IssueKind)
    ensures
        r == match e {
            CardError::UnrecognizedCardFormat { .. } => IssueKind::Format,
            CardError::NoData => IssueKind::NoData,
            CardError::MalformedContainer => IssueKind::Other,
        },
{
    match e {
        CardError::UnrecognizedCardFormat { .. } => IssueKind::Format,
        CardError::NoData => IssueKind::NoData,
        CardError::MalformedContainer => IssueKind::Other,
    }
}

impl IssueKind {
    /// Name of the folder for this kind of issue.
    pub fn folder(&self) -> (r: &'static str)
        ensures
            r@ == match self {
                IssueKind::Format => "format"@,
                IssueKind::NoData => "no_data"@,
                IssueKind::Other => "other"@,
            },
    {
        match self {
            IssueKind::Format => "format",
            IssueKind::NoData => "no_data",
            IssueKind::Other => "other",
        }
    }
}

} // verus!
