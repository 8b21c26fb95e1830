use tavern_card::card::{
    embed_payload, extract_payload_text, issue_kind, payload_json_text, read_card,
    read_card_from_json, render_display, render_json, strip_metadata, Card, CardError, IssueKind,
};
use tavern_card::json::pretty_json;
use tavern_card::payload::{decode, encode, TranscodeError};
use tavern_card::png::{
    insert_text_chunk, locate_text_chunk, read_text_chunk, remove_text_chunk, PngError,
};
use tavern_card::schema::{CardV2, CardV3, Field, SchemaError};

const SIG: [u8; 8] = [137, 80, 78, 71, 13, 10, 26, 10];

fn chunk(ty: &[u8], data: &[u8]) -> Vec<u8> {
    let mut out = (data.len() as u32).to_be_bytes().to_vec();
    let mut body = ty.to_vec();
    body.extend_from_slice(data);
    out.extend_from_slice(&body);
    out.extend_from_slice(&crc32fast::hash(&body).to_be_bytes());
    out
}

fn text_data(key: &[u8], value: &[u8]) -> Vec<u8> {
    let mut d = key.to_vec();
    d.push(0);
    d.extend_from_slice(value);
    d
}

fn plain_image() -> Vec<u8> {
    let mut img = SIG.to_vec();
    img.extend(chunk(b"IHDR", &[0, 0, 0, 1, 0, 0, 0, 1, 8, 0, 0, 0, 0]));
    img.extend(chunk(b"IDAT", &[1, 2, 3, 4]));
    img.extend(chunk(b"IEND", &[]));
    img
}

fn image_with_chara(value: &[u8]) -> Vec<u8> {
    let mut img = SIG.to_vec();
    img.extend(chunk(b"IHDR", &[0, 0, 0, 1, 0, 0, 0, 1, 8, 0, 0, 0, 0]));
    img.extend(chunk(b"tEXt", &text_data(b"chara", value)));
    img.extend(chunk(b"IDAT", &[1, 2, 3, 4]));
    img.extend(chunk(b"IEND", &[]));
    img
}

const EVE_V2: &str = "{\"spec\":\"chara_card_v2\",\"spec_version\":\"2.0\",\"data\":{\"name\":\"Eve\",\"description\":\"\",\"personality\":\"\",\"scenario\":\"\",\"first_mes\":\"Hi\",\"mes_example\":\"\"}}";

const ADA_V3: &str = "{\"spec\":\"chara_card_v3\",\"spec_version\":\"3.0\",\"data\":{\"name\":\"Ada\",\"description\":\"d\",\"personality\":\"p\",\"scenario\":\"s\",\"first_mes\":\"Hello\",\"mes_example\":\"m\",\"tags\":[\"x\",\"y\"],\"group_only_greetings\":[\"g\"],\"extensions\":{\"depth\":4}}}";

#[test]
fn read_card_from_base64_v2_payload() {
    let img = image_with_chara(&encode(EVE_V2));
    match read_card(&img) {
        Ok(Card::V2(c)) => {
            assert_eq!(c.data.name, "Eve");
            assert_eq!(c.data.first_mes, "Hi");
            assert_eq!(c.spec, "chara_card_v2");
        }
        other => panic!("expected a V2 card, got {:?}", other),
    }
}

#[test]
fn bad_base64_is_empty_text_and_unrecognized() {
    let img = image_with_chara(b"%%%not-base64%%%");
    assert_eq!(extract_payload_text(&img), Ok(Some(String::new())));
    match read_card(&img) {
        Err(CardError::UnrecognizedCardFormat { v3, v2 }) => {
            assert_eq!(v3, SchemaError::NotJson);
            assert_eq!(v2, SchemaError::NotJson);
        }
        other => panic!("expected an unrecognized format, got {:?}", other),
    }
}

#[test]
fn image_without_card_chunk_has_no_data() {
    let img = plain_image();
    assert_eq!(extract_payload_text(&img), Ok(None));
    assert!(matches!(read_card(&img), Err(CardError::NoData)));
    assert_eq!(payload_json_text(&img), Ok("NO TEXT".to_string()));
}

#[test]
fn bad_signature_is_malformed() {
    let mut img = plain_image();
    img[1] = b'Q';
    assert_eq!(extract_payload_text(&img), Err(PngError::Malformed));
    assert!(matches!(read_card(&img), Err(CardError::MalformedContainer)));
    assert_eq!(strip_metadata(&img), Err(PngError::Malformed));
}

#[test]
fn chunk_running_past_end_is_malformed() {
    let mut img = SIG.to_vec();
    img.extend_from_slice(&[0, 0, 0, 100]);
    img.extend_from_slice(b"IDAT");
    img.extend_from_slice(&[1, 2, 3]);
    assert_eq!(locate_text_chunk(&img, b"chara"), Err(PngError::Malformed));
    assert_eq!(insert_text_chunk(&img, b"chara", b"x"), Err(PngError::Malformed));
}

#[test]
fn insert_without_end_chunk_is_malformed() {
    let mut img = SIG.to_vec();
    img.extend(chunk(b"IHDR", &[0; 13]));
    assert_eq!(insert_text_chunk(&img, b"chara", b"x"), Err(PngError::Malformed));
}

#[test]
fn insert_puts_chunk_before_end_with_crc() {
    let img = plain_image();
    let out = insert_text_chunk(&img, b"chara", b"abc").unwrap();
    let end = img.len() - 12;
    let mut expected = img[..end].to_vec();
    expected.extend(chunk(b"tEXt", b"chara\0abc"));
    expected.extend_from_slice(&img[end..]);
    assert_eq!(out, expected);
}

#[test]
fn locate_and_read_give_the_value_span() {
    let img = image_with_chara(b"hello");
    let start = 8 + 25 + 8 + 6;
    assert_eq!(locate_text_chunk(&img, b"chara"), Ok(Some((start, start + 5))));
    assert_eq!(read_text_chunk(&img, b"chara"), Ok(Some(b"hello".to_vec())));
    assert_eq!(read_text_chunk(&img, b"other"), Ok(None));
}

#[test]
fn first_of_duplicate_chunks_wins() {
    let mut img = SIG.to_vec();
    img.extend(chunk(b"tEXt", &text_data(b"chara", b"one")));
    img.extend(chunk(b"tEXt", &text_data(b"chara", b"two")));
    img.extend(chunk(b"IEND", &[]));
    assert_eq!(read_text_chunk(&img, b"chara"), Ok(Some(b"one".to_vec())));
}

#[test]
fn keyword_must_match_whole() {
    let mut img = SIG.to_vec();
    img.extend(chunk(b"tEXt", &text_data(b"charax", b"v")));
    img.extend(chunk(b"IEND", &[]));
    assert_eq!(read_text_chunk(&img, b"chara"), Ok(None));
}

#[test]
fn strip_after_embed_gives_back_the_image() {
    let img = plain_image();
    let embedded = embed_payload(&img, EVE_V2).unwrap();
    assert_ne!(embedded, img);
    assert_eq!(strip_metadata(&embedded), Ok(img));
}

#[test]
fn embed_replaces_an_existing_card() {
    let img = image_with_chara(b"old");
    let embedded = embed_payload(&img, "{}").unwrap();
    assert_eq!(extract_payload_text(&embedded), Ok(Some("{}".to_string())));
    let mut expected = SIG.to_vec();
    expected.extend(chunk(b"IHDR", &[0, 0, 0, 1, 0, 0, 0, 1, 8, 0, 0, 0, 0]));
    expected.extend(chunk(b"IDAT", &[1, 2, 3, 4]));
    expected.extend(chunk(b"tEXt", b"chara\0e30="));
    expected.extend(chunk(b"IEND", &[]));
    assert_eq!(embedded, expected);
}

#[test]
fn strip_twice_is_strip_once() {
    let img = image_with_chara(b"payload");
    let once = strip_metadata(&img).unwrap();
    assert_eq!(strip_metadata(&once), Ok(once.clone()));
    assert_eq!(once, plain_image());
}

#[test]
fn removal_keeps_every_other_chunk() {
    let img = image_with_chara(b"payload");
    let out = remove_text_chunk(&img, b"chara").unwrap();
    let removed = 12 + 6 + 7;
    assert_eq!(out.len(), img.len() - removed);
    assert_eq!(&out[..33], &img[..33]);
    assert_eq!(&out[33..], &img[33 + removed..]);
    assert_eq!(remove_text_chunk(&out, b"chara"), Ok(out.clone()));
}

#[test]
fn encode_then_decode_gives_text_back() {
    for t in ["", "{}", EVE_V2, "caf\u{e9} \u{1F600}"] {
        assert_eq!(decode(&encode(t)), Ok(t.to_string()));
    }
    assert_eq!(encode("{}"), b"e30=".to_vec());
}

#[test]
fn decode_errors() {
    assert_eq!(decode(b"%%%"), Err(TranscodeError::NotBase64));
    assert_eq!(decode(b"/w=="), Err(TranscodeError::NotUtf8));
    assert_eq!(decode(b"SGk="), Ok("Hi".to_string()));
}

#[test]
fn newer_generation_is_preferred() {
    match read_card_from_json(ADA_V3) {
        Ok(Card::V3(c)) => {
            assert_eq!(c.data.name, "Ada");
            assert_eq!(c.data.tags, vec!["x".to_string(), "y".to_string()]);
            assert_eq!(c.group_only_greetings, vec!["g".to_string()]);
        }
        other => panic!("expected a V3 card, got {:?}", other),
    }
    assert!(CardV2::parse(ADA_V3).is_ok());
}

#[test]
fn older_generation_is_the_fallback() {
    assert_eq!(
        CardV3::parse(EVE_V2).err(),
        Some(SchemaError::MissingField(Field::GroupOnlyGreetings))
    );
    assert!(matches!(read_card_from_json(EVE_V2), Ok(Card::V2(_))));
}

#[test]
fn schema_errors_name_the_field() {
    let no_name = "{\"spec\":\"chara_card_v2\",\"spec_version\":\"2.0\",\"data\":{\"description\":\"\"}}";
    assert_eq!(CardV2::parse(no_name).err(), Some(SchemaError::MissingField(Field::Name)));
    let bad_tags = "{\"spec\":\"s\",\"spec_version\":\"2.0\",\"data\":{\"name\":\"a\",\"description\":\"\",\"personality\":\"\",\"scenario\":\"\",\"first_mes\":\"\",\"mes_example\":\"\",\"tags\":[1]}}";
    assert_eq!(CardV2::parse(bad_tags).err(), Some(SchemaError::TypeMismatch(Field::Tags)));
    let data_text = "{\"spec\":\"s\",\"spec_version\":\"2.0\",\"data\":\"x\"}";
    assert_eq!(CardV2::parse(data_text).err(), Some(SchemaError::TypeMismatch(Field::Data)));
    assert_eq!(CardV2::parse("not json").err(), Some(SchemaError::NotJson));
    let v3_no_group = "{\"spec\":\"chara_card_v3\",\"spec_version\":\"3.0\",\"data\":{\"name\":\"a\",\"description\":\"\",\"personality\":\"\",\"scenario\":\"\",\"first_mes\":\"\",\"mes_example\":\"\"}}";
    assert_eq!(
        CardV3::parse(v3_no_group).err(),
        Some(SchemaError::MissingField(Field::GroupOnlyGreetings))
    );
    match read_card_from_json("{\"spec\":1}") {
        Err(CardError::UnrecognizedCardFormat { v3, v2 }) => {
            assert_eq!(v3, SchemaError::TypeMismatch(Field::Spec));
            assert_eq!(v2, SchemaError::TypeMismatch(Field::Spec));
        }
        other => panic!("expected an unrecognized format, got {:?}", other),
    }
}

#[test]
fn rendered_json_reads_back_as_the_same_card() {
    for text in [EVE_V2, ADA_V3] {
        let card = read_card_from_json(text).unwrap();
        let rendered = render_json(&card);
        let again = read_card_from_json(&rendered).unwrap();
        assert_eq!(render_display(&again), render_display(&card));
        assert_eq!(render_json(&again), rendered);
    }
    let card = read_card_from_json(ADA_V3).unwrap();
    assert!(render_json(&card).contains("\"depth\": 4"));
}

#[test]
fn render_json_uses_three_space_indent() {
    let card = read_card_from_json(EVE_V2).unwrap();
    let text = render_json(&card);
    assert!(text.starts_with("{\n   \"data\": {\n      \"description\": \"\""));
}

#[test]
fn display_lists_labelled_fields() {
    let card = read_card_from_json(ADA_V3).unwrap();
    let expected = "Spec: chara_card_v3 3.0\nName: Ada\nDescription: d\nPersonality: p\nScenario: s\nFirst message: Hello\nExample dialogue: m\nCreator: \nCreator notes: \nVersion: \nTags: x, y\nGroup-only greetings: g\n";
    assert_eq!(render_display(&card), expected);
}

#[test]
fn pretty_json_reformats_or_keeps_text() {
    assert_eq!(pretty_json("{\"a\":[1,2]}"), "{\n   \"a\": [\n      1,\n      2\n   ]\n}");
    assert_eq!(pretty_json("NO TEXT"), "NO TEXT");
}

#[test]
fn payload_dump_is_pretty_json() {
    let img = image_with_chara(&encode("{\"a\":1}"));
    assert_eq!(payload_json_text(&img), Ok("{\n   \"a\": 1\n}".to_string()));
}

#[test]
fn issue_kinds_pick_folders() {
    let e = CardError::UnrecognizedCardFormat { v3: SchemaError::NotJson, v2: SchemaError::NotJson };
    assert_eq!(issue_kind(e), IssueKind::Format);
    assert_eq!(issue_kind(CardError::NoData).folder(), "no_data");
    assert_eq!(issue_kind(CardError::MalformedContainer).folder(), "other");
    assert_eq!(IssueKind::Format.folder(), "format");
}

#[test]
fn crc_mismatch_on_card_chunk_is_malformed() {
    let mut img = image_with_chara(b"payload");
    let crc_at = 33 + 12 + 6 + 7 - 1;
    img[crc_at] ^= 0xff;
    assert_eq!(read_text_chunk(&img, b"chara"), Err(PngError::Malformed));
    assert!(matches!(read_card(&img), Err(CardError::MalformedContainer)));
    let mut other = image_with_chara(b"payload");
    other[32] ^= 0xff;
    assert_eq!(read_text_chunk(&other, b"chara"), Ok(Some(b"payload".to_vec())));
}

#[test]
fn embedded_text_reads_back() {
    let img = plain_image();
    let embedded = embed_payload(&img, ADA_V3).unwrap();
    assert_eq!(extract_payload_text(&embedded), Ok(Some(ADA_V3.to_string())));
    assert!(matches!(read_card(&embedded), Ok(Card::V3(_))));
}

#[test]
fn base64_groups_and_padding() {
    assert_eq!(encode("a"), b"YQ==".to_vec());
    assert_eq!(encode("ab"), b"YWI=".to_vec());
    assert_eq!(encode("abc"), b"YWJj".to_vec());
    assert_eq!(encode("abcd"), b"YWJjZA==".to_vec());
    assert_eq!(encode("\u{ff}"), b"w78=".to_vec());
}

#[test]
fn floats_survive_render_and_pretty_print() {
    let text = "{\"spec\":\"chara_card_v2\",\"spec_version\":\"2.0\",\"data\":{\"name\":\"F\",\"description\":\"\",\"personality\":\"\",\"scenario\":\"\",\"first_mes\":\"\",\"mes_example\":\"\",\"extensions\":{\"talkativeness\":0.1,\"edge\":2.2250738585072011e-308,\"big\":1.7976931348623157e308}}}";
    let card = read_card_from_json(text).unwrap();
    let rendered = render_json(&card);
    let again = read_card_from_json(&rendered).unwrap();
    assert_eq!(render_json(&again), rendered);
    let direct: serde_json::Value = serde_json::from_str(text).unwrap();
    let via_render: serde_json::Value = serde_json::from_str(&rendered).unwrap();
    assert_eq!(direct, via_render);
    let via_pretty: serde_json::Value = serde_json::from_str(&pretty_json(text)).unwrap();
    assert_eq!(direct, via_pretty);
}

#[test]
fn shape_errors_come_before_the_spec_identifier() {
    let no_data = "{\"spec\":\"chara_card_v2\",\"spec_version\":\"2.0\"}";
    match read_card_from_json(no_data) {
        Err(CardError::UnrecognizedCardFormat { v3, v2 }) => {
            assert_eq!(v3, SchemaError::MissingField(Field::Data));
            assert_eq!(v2, SchemaError::MissingField(Field::Data));
        }
        other => panic!("expected an unrecognized format, got {:?}", other),
    }
    let bad_name = "{\"spec\":\"chara_card_v2\",\"spec_version\":\"2.0\",\"data\":{\"name\":7}}";
    assert_eq!(CardV3::parse(bad_name).err(), Some(SchemaError::TypeMismatch(Field::Name)));
    let v3_shape_v2_id = ADA_V3.replace("chara_card_v3", "chara_card_v2");
    assert_eq!(CardV3::parse(&v3_shape_v2_id).err(), Some(SchemaError::WrongSpec));
    assert!(matches!(read_card_from_json(&v3_shape_v2_id), Ok(Card::V2(_))));
}
