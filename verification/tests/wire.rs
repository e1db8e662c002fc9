//! Jev's wire format and HTTP exchange.

use jevbus::jev::http::{
    after_send, parsed, refused, ApiKey, HttpSystemOne, JevConfigError, Reading, DEFAULT_ENDPOINT,
    KEY_ENV,
};
use jevbus::jev::wire::{decode, encode, Number, Response, WireAnswer, WireQuestion};
use jevbus::jev::{JevJudge, DEFAULT_MODEL};
use jevbus::{
    Answer, Double, JudgeError, OrderedMap, Payload, Probability, Question, QuestionName,
    QuestionSet,
};
use serde_json::Value;

fn text(s: &str) -> Value {
    Value::String(s.to_owned())
}

fn object(fields: Vec<(&str, Value)>) -> Value {
    let mut map = serde_json::Map::new();
    for (name, value) in fields {
        map.insert(name.to_owned(), value);
    }
    Value::Object(map)
}

fn parse(json: &str) -> Value {
    serde_json::from_str(json).unwrap()
}

fn question_json(question: &WireQuestion) -> Value {
    match question {
        WireQuestion::Noul { instructions } => object(vec![
            ("type", text("noul")),
            ("instructions", text(instructions)),
        ]),
        WireQuestion::Choice {
            instructions,
            criteria,
        } => object(vec![
            ("type", text("choice")),
            ("instructions", text(instructions)),
            (
                "criteria",
                object(
                    criteria
                        .iter()
                        .into_iter()
                        .map(|(k, v)| (k.as_str(), text(v)))
                        .collect(),
                ),
            ),
        ]),
        WireQuestion::Score {
            instructions,
            criteria,
        } => object(vec![
            ("type", text("score")),
            ("instructions", text(instructions)),
            (
                "criteria",
                Value::Array(criteria.iter().map(|l| text(l)).collect()),
            ),
        ]),
    }
}

fn request_json(model: &str, payload: &Payload, questions: &QuestionSet) -> Value {
    let request = encode(model, payload, questions);
    object(vec![
        ("model", text(&request.model)),
        ("state", text(&request.state)),
        (
            "questions",
            object(
                request
                    .questions
                    .iter()
                    .into_iter()
                    .map(|(name, q)| (name.as_str(), question_json(q)))
                    .collect(),
            ),
        ),
    ])
}

fn number(value: &Value) -> Number {
    let value = value.as_f64().unwrap();
    Number {
        value: Double::from_bits(value.to_bits()),
        shown: value.to_string(),
    }
}

fn numbers(value: &Value) -> OrderedMap<String, Number> {
    let mut map = OrderedMap::new();
    for (key, value) in value.as_object().unwrap() {
        map.insert(key.clone(), number(value));
    }
    map
}

fn answer(value: &Value) -> WireAnswer {
    let confidence = value.get("confidence").map(number);
    match value["type"].as_str().unwrap() {
        "noul" => WireAnswer::Noul {
            noul: number(&value["noul"]),
        },
        "choice" => WireAnswer::Choice {
            choice: value["choice"].as_str().unwrap().to_owned(),
            probabilities: numbers(&value["probabilities"]),
            confidence,
        },
        _ => {
            let mut legend = OrderedMap::new();
            for (index, level) in value["legend"].as_object().unwrap() {
                legend.insert(index.clone(), level.as_str().unwrap().to_owned());
            }
            WireAnswer::Score {
                score: number(&value["score"]).value,
                confidence,
                legend,
                probabilities: numbers(&value["probabilities"]),
            }
        }
    }
}

fn response(json: &str) -> Response {
    let body = parse(json);
    let mut answers = OrderedMap::new();
    for (name, value) in body["answers"].as_object().unwrap() {
        answers.insert(name.clone(), answer(value));
    }
    Response {
        model: body["model"].as_str().map(str::to_owned),
        answers,
    }
}

fn name(text: &str) -> QuestionName {
    QuestionName::new(text).unwrap()
}

fn p(v: f64) -> Probability {
    Probability::new(Double::from_bits(v.to_bits())).unwrap()
}

#[test]
fn encode_matches_the_documented_request_shape() {
    let payload = Payload::new("card charged twice");
    let questions = QuestionSet::from_iter(vec![(
        name("billing"),
        Question::Noul {
            instructions: "The message is about billing".into(),
        },
    )]);
    assert_eq!(
        request_json("jev-latest", &payload, &questions),
        parse(
            r#"{
                "model": "jev-latest",
                "state": "card charged twice",
                "questions": {
                    "billing": { "type": "noul", "instructions": "The message is about billing" }
                }
            }"#
        )
    );
}

#[test]
fn decode_accepts_noul_and_choice_answers() {
    let body = response(
        r#"{
            "model": "jev-1.13.0",
            "answers": {
                "billing": { "type": "noul", "noul": 0.93 },
                "route": { "type": "choice", "choice": "a",
                           "probabilities": { "a": 0.8, "b": 0.2 }, "confidence": 0.9 }
            }
        }"#,
    );
    let decoded = decode(body).unwrap_or_default();
    assert!(matches!(
        decoded.get(&name("billing")),
        Some(Answer::Noul { .. })
    ));
    assert!(
        matches!(decoded.get(&name("route")), Some(Answer::Choice { choice, .. }) if choice == "a")
    );
}

#[test]
fn encode_sends_score_levels_under_criteria_as_a_list() {
    let payload = Payload::new("x");
    let questions = QuestionSet::from_iter(vec![(
        name("sev"),
        Question::Score {
            instructions: "How severe?".into(),
            levels: vec!["low".into(), "high".into()],
        },
    )]);
    let encoded = request_json("jev-latest", &payload, &questions);
    assert_eq!(
        encoded.pointer("/questions/sev/criteria"),
        Some(&parse(r#"["low", "high"]"#))
    );
}

#[test]
fn decode_rekeys_a_score_distribution_by_legend_and_picks_the_argmax_level() {
    // Verbatim shape of a jev-1.13.0 response.
    let body = response(
        r#"{
            "model": "jev-1.13.0",
            "answers": {
                "sev": { "type": "score", "score": 1.99, "confidence": 0.99,
                         "legend": { "0": "low", "1": "medium", "2": "high" },
                         "probabilities": { "0": 0.0, "1": 0.01, "2": 0.99 } }
            },
            "usage": { "input_tokens": 307, "output_tokens": 17 }
        }"#,
    );
    let level = match decode(body) {
        Ok(set) => match set.get(&name("sev")) {
            Some(Answer::Score {
                level,
                distribution,
                ..
            }) if distribution.len() == 3 => level.clone(),
            _ => String::new(),
        },
        _ => String::new(),
    };
    assert_eq!(level, "high");
}

#[test]
fn decode_rejects_out_of_range_probabilities_by_name() {
    let body = response(r#"{ "answers": { "billing": { "type": "noul", "noul": 1.7 } } }"#);
    assert!(matches!(
        decode(body),
        Err(JudgeError::MalformedAnswer { question, .. }) if question.as_str() == "billing"
    ));
}

#[test]
fn encode_keeps_every_question() {
    let mut criteria = OrderedMap::new();
    criteria.insert("a".to_owned(), "about a".to_owned());
    let questions = QuestionSet::from_iter(vec![
        (
            name("n"),
            Question::Noul {
                instructions: "1".into(),
            },
        ),
        (
            name("c"),
            Question::Choice {
                instructions: "2".into(),
                criteria,
            },
        ),
    ]);
    assert_eq!(
        request_json("m", &Payload::new("s"), &questions),
        parse(
            r#"{ "model": "m", "state": "s", "questions": {
                "c": { "type": "choice", "instructions": "2", "criteria": { "a": "about a" } },
                "n": { "type": "noul", "instructions": "1" } } }"#
        )
    );
}

#[test]
fn decode_gives_exact_answers() {
    let decoded = decode(response(
        r#"{ "answers": {
            "c": { "type": "choice", "choice": "x", "probabilities": { "x": 1.0, "y": 0.0 } },
            "n": { "type": "noul", "noul": 0.25 } } }"#,
    ))
    .unwrap();
    let mut probabilities = OrderedMap::new();
    probabilities.insert("x".to_owned(), p(1.0));
    probabilities.insert("y".to_owned(), p(0.0));
    assert_eq!(
        decoded.get(&name("c")),
        Some(&Answer::Choice {
            choice: "x".into(),
            probabilities,
            confidence: None
        })
    );
    assert_eq!(
        decoded.get(&name("n")),
        Some(&Answer::Noul {
            probability: p(0.25)
        })
    );
    assert_eq!(decoded.get(&name("z")), None);
    assert_eq!(decoded.iter().len(), 2);
}

#[test]
fn decode_words_each_fault_and_reports_the_first_by_name() {
    let fault = |json: &str| decode(response(json)).unwrap_err().message();
    assert_eq!(
        fault(r#"{ "answers": { "b": { "type": "noul", "noul": 1.7 },
                                "a": { "type": "noul", "noul": -0.5 } } }"#),
        "malformed answer to a: -0.5 is not a probability: expected a number in [0, 1]"
    );
    assert_eq!(
        fault(r#"{ "answers": { "": { "type": "noul", "noul": 1.7 } } }"#),
        "malformed reply: empty question name"
    );
    assert_eq!(
        fault(
            r#"{ "answers": { "s": { "type": "score", "score": 0, "legend": {},
                               "probabilities": {} } } }"#
        ),
        "malformed answer to s: empty distribution"
    );
    assert_eq!(
        fault(
            r#"{ "answers": { "s": { "type": "score", "score": 0, "legend": { "0": "low" },
                               "probabilities": { "0": 0.5, "1": 7 } } } }"#
        ),
        "malformed answer to s: legend has no level for index 1"
    );
    assert_eq!(
        fault(
            r#"{ "answers": { "s": { "type": "score", "score": 0, "legend": { "0": "low" },
                               "probabilities": { "0": 7 } } } }"#
        ),
        "malformed answer to s: 7 is not a probability: expected a number in [0, 1]"
    );
    assert_eq!(
        fault(
            r#"{ "answers": { "c": { "type": "choice", "choice": "x", "confidence": 2,
                               "probabilities": { "x": 3, "y": 4 } } } }"#
        ),
        "malformed answer to c: 3 is not a probability: expected a number in [0, 1]"
    );
    assert_eq!(
        fault(
            r#"{ "answers": { "c": { "type": "choice", "choice": "x", "confidence": 2,
                               "probabilities": {} } } }"#
        ),
        "malformed answer to c: 2 is not a probability: expected a number in [0, 1]"
    );
}

#[test]
fn a_tied_score_goes_to_the_first_level_by_name() {
    let body = response(
        r#"{ "answers": { "s": { "type": "score", "score": 0.5,
             "legend": { "0": "zeta", "1": "alpha", "2": "alpha" },
             "probabilities": { "0": 0.5, "1": 0.1, "2": 0.5 } } } }"#,
    );
    let decoded = decode(body).unwrap();
    let mut distribution = OrderedMap::new();
    distribution.insert("alpha".to_owned(), p(0.5));
    distribution.insert("zeta".to_owned(), p(0.5));
    assert_eq!(
        decoded.get(&name("s")),
        Some(&Answer::Score {
            level: "alpha".into(),
            score: Double::from_bits(0.5f64.to_bits()),
            distribution,
            confidence: None
        })
    );
}

#[test]
fn the_zeros_tie() {
    let body = response(
        r#"{ "answers": { "s": { "type": "score", "score": 0.0,
             "legend": { "0": "a", "1": "b" },
             "probabilities": { "0": -0.0, "1": 0.0 } } } }"#,
    );
    let decoded = decode(body).unwrap();
    let mut distribution = OrderedMap::new();
    distribution.insert("a".to_owned(), p(0.0));
    distribution.insert("b".to_owned(), p(0.0));
    assert_eq!(
        decoded.get(&name("s")),
        Some(&Answer::Score {
            level: "a".into(),
            score: Double::from_bits(0.0f64.to_bits()),
            distribution,
            confidence: None
        })
    );
}

#[test]
fn an_api_key_is_not_empty_and_is_not_shown() {
    assert_eq!(ApiKey::new("").err(), Some(JevConfigError::EmptyKey));
    let key = ApiKey::new("k").ok().unwrap();
    assert_eq!(key.expose(), "k");
    assert_eq!(key.redacted(), "ApiKey(<redacted>)");
    let missing = ApiKey::from_variable(None).err().unwrap();
    assert_eq!(missing, JevConfigError::MissingKey { var: KEY_ENV });
    assert_eq!(
        missing.message(),
        "environment variable JEV_KEY is not set"
    );
    let empty = ApiKey::from_variable(Some(String::new())).err().unwrap();
    assert_eq!(empty.message(), "api key is empty");
    let client = JevConfigError::Client { reason: "x".into() };
    assert_eq!(client.message(), "http client: x");
}

#[test]
fn an_exchange_is_classified_by_its_status() {
    assert_eq!(after_send(Ok(200)), Ok(Reading::Response));
    assert_eq!(after_send(Ok(299)), Ok(Reading::Response));
    assert_eq!(after_send(Ok(300)), Ok(Reading::Refusal { status: 300 }));
    assert_eq!(after_send(Ok(199)), Ok(Reading::Refusal { status: 199 }));
    assert_eq!(
        after_send(Err("dns".into())),
        Err(JudgeError::Unavailable {
            reason: "dns".into()
        })
    );
    assert_eq!(
        refused(503, Some("busy".into())),
        JudgeError::Rejected {
            status: 503,
            message: "busy".into()
        }
    );
    assert_eq!(
        refused(503, None),
        JudgeError::Rejected {
            status: 503,
            message: String::new()
        }
    );
    assert_eq!(
        parsed(Err("html".into())).err(),
        Some(JudgeError::MalformedReply {
            detail: "html".into()
        })
    );
}

#[test]
fn a_judge_asks_its_model_and_reads_the_reply() {
    let key = ApiKey::new("k").ok().unwrap();
    let judge = JevJudge::over(HttpSystemOne::new("client", key));
    assert_eq!(judge.model(), DEFAULT_MODEL);
    assert_eq!(judge.protocol().endpoint(), DEFAULT_ENDPOINT);
    let judge = judge.with_model("jev-2").with_endpoint("https://proxy");
    assert_eq!(judge.protocol().endpoint(), "https://proxy");
    assert_eq!(*judge.protocol().client(), "client");
    assert_eq!(judge.protocol().key().expose(), "k");
    let questions = QuestionSet::from_iter(vec![(
        name("q"),
        Question::Noul {
            instructions: "i".into(),
        },
    )]);
    let request = judge.request(&Payload::new("s"), &questions);
    assert_eq!(request.model, "jev-2");
    assert_eq!(request.state, "s");
    assert_eq!(request.questions.len(), 1);
    let reply = response(r#"{ "answers": { "q": { "type": "noul", "noul": 0.5 } } }"#);
    let answers = judge.conclude(Ok(reply)).unwrap();
    assert_eq!(
        answers.get(&name("q")),
        Some(&Answer::Noul {
            probability: p(0.5)
        })
    );
    let error = JudgeError::Unavailable {
        reason: "down".into(),
    };
    assert_eq!(judge.conclude(Err(error.clone())), Err(error));
}

#[test]
fn decoding_keeps_every_answer_and_rejects_any_bad_number() {
    let good = r#"{ "answers": {
        "a": { "type": "noul", "noul": 1 },
        "b": { "type": "choice", "choice": "x", "probabilities": {}, "confidence": 0 } } }"#;
    let names: Vec<String> = decode(response(good))
        .unwrap()
        .iter()
        .into_iter()
        .map(|(name, _)| name.as_str().to_owned())
        .collect();
    assert_eq!(names, ["a", "b"]);
    for bad in [
        r#"{ "answers": { "q": { "type": "choice", "choice": "x", "probabilities": { "x": 2 } } } }"#,
        r#"{ "answers": { "q": { "type": "choice", "choice": "x", "probabilities": {},
                                 "confidence": -1 } } }"#,
        r#"{ "answers": { "q": { "type": "score", "score": 0, "legend": { "0": "x" },
                                 "probabilities": { "0": 1 }, "confidence": 1.5 } } }"#,
    ] {
        assert!(matches!(
            decode(response(bad)),
            Err(JudgeError::MalformedAnswer { question, .. }) if question.as_str() == "q"
        ));
    }
}
