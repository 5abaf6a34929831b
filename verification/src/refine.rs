//! What the language model is asked, and what is read from its answer.

use crate::config::OMLX_MODEL;
use crate::json::{
    json_field, json_fields, json_item, json_items, json_of, json_parsed, list_value, object_value,
    parse_value, text_value, value_field, value_item, value_text, Json,
};
use crate::text::{trim, trimmed};
use vstd::prelude::*;

verus! {

/// The body of a request with these messages.
pub fn build_omlx_body(messages: Vec<serde_json::Value>) -> (body: serde_json::Value)
    ensures
        json_of(body) == Json::Object(
            map![
                "model"@ => Json::Text(OMLX_MODEL@),
                "messages"@ => Json::List(json_items(messages@)),
                "temperature"@ => Json::Number("0.3"@),
            ],
        ),
{
    let ghost items = json_items(messages@);
    let digits: [u8; 3] = [48, 46, 51];
    let temperature = parse_value(&digits).unwrap();
    proof {
        reveal_strlit("0.3");
        assert(digits@.map_values(|b: u8| b as char) =~= "0.3"@);
    }
    let mut pairs: Vec<(String, serde_json::Value)> = Vec::new();
    pairs.push(("model".to_owned(), text_value(OMLX_MODEL)));
    pairs.push(("messages".to_owned(), list_value(messages)));
    pairs.push(("temperature".to_owned(), temperature));
    proof {
        let two = pairs@.drop_last();
        let one = two.drop_last();
        assert(json_fields(one.drop_last()) == Map::<Seq<char>, Json>::empty());
        assert(json_fields(one) == json_fields(one.drop_last()).insert(
            "model"@,
            Json::Text(OMLX_MODEL@),
        ));
        assert(json_fields(two) == json_fields(one).insert("messages"@, Json::List(items)));
        assert(json_fields(pairs@) == json_fields(two).insert(
            "temperature"@,
            Json::Number("0.3"@),
        ));
    }
    object_value(pairs)
}

/// The text of an answer: `choices[0].message.content`.
pub open spec fn answer_text(answer: Json) -> Option<Seq<char>> {
    match json_field(answer, "choices"@) {
        Some(choices) => match json_item(choices, 0) {
            Some(choice) => match json_field(choice, "message"@) {
                Some(message) => match json_field(message, "content"@) {
                    Some(Json::Text(content)) => Some(content),
                    _ => None,
                },
                None => None,
            },
            None => None,
        },
        None => None,
    }
}

fn content_of(answer: &serde_json::Value) -> (text: Option<&str>)
    ensures
        match text {
            Some(t) => answer_text(json_of(*answer)) == Some(t@),
            None => answer_text(json_of(*answer)) is None,
        },
{
    match value_field(answer, "choices") {
        Some(choices) => match value_item(choices, 0) {
            Some(choice) => match value_field(choice, "message") {
                Some(message) => match value_field(message, "content") {
                    Some(content) => value_text(content),
                    None => None,
                },
                None => None,
            },
            None => None,
        },
        None => None,
    }
}

/// The reply in an answer, without the white space at its ends.
pub fn read_answer(answer: &serde_json::Value) -> (reply: Result<String, String>)
    ensures
        match (reply, answer_text(json_of(*answer))) {
            (Ok(r), Some(content)) => r@ == trimmed(content),
            (Err(e), None) => e@ == "oMLX: missing choices[0].message.content"@,
            _ => false,
        },
{
    match content_of(answer) {
        Some(content) => Ok(trim(content)),
        None => Err("oMLX: missing choices[0].message.content".to_owned()),
    }
}

/// The reply in the body of a response.
pub fn read_response(body: &[u8]) -> (reply: Result<String, String>)
    ensures
        match json_parsed(body@) {
            Some(answer) => match (reply, answer_text(answer)) {
                (Ok(r), Some(content)) => r@ == trimmed(content),
                (Err(e), None) => e@ == "oMLX: missing choices[0].message.content"@,
                _ => false,
            },
            None => reply matches Err(e) && e@ == "oMLX json: error decoding response body"@,
        },
{
    match parse_value(body) {
        Some(answer) => read_answer(&answer),
        None => Err("oMLX json: error decoding response body".to_owned()),
    }
}

/// An answer that has a text where one belongs is read as that text, whatever else
/// it holds.
pub proof fn text_of_the_first_choice_is_read(
    answer: Map<Seq<char>, Json>,
    choices: Seq<Json>,
    choice: Map<Seq<char>, Json>,
    message: Map<Seq<char>, Json>,
    content: Seq<char>,
)
    requires
        answer.contains_key("choices"@),
        answer["choices"@] == Json::List(choices),
        choices.len() > 0,
        choices[0] == Json::Object(choice),
        choice.contains_key("message"@),
        choice["message"@] == Json::Object(message),
        message.contains_key("content"@),
        message["content"@] == Json::Text(content),
    ensures
        answer_text(Json::Object(answer)) == Some(content),
{
}

/// An answer from which a text is read has that text in the first of its choices,
/// as the content of its message.
pub proof fn text_is_read_only_from_the_first_choice(answer: Json)
    requires
        answer_text(answer) is Some,
    ensures
        answer is Object,
        answer->Object_0.contains_key("choices"@),
        ({
            let choices = answer->Object_0["choices"@];
            &&& choices is List
            &&& choices->List_0.len() > 0
            &&& choices->List_0[0] is Object
            &&& choices->List_0[0]->Object_0.contains_key("message"@)
            &&& ({
                let message = choices->List_0[0]->Object_0["message"@];
                &&& message is Object
                &&& message->Object_0.contains_key("content"@)
                &&& message->Object_0["content"@] == Json::Text(answer_text(answer)->0)
            })
        }),
{
}

} // verus!
