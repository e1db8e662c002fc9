//! The answer cache.

use jevbus::cache::{CacheStep, LookupStep};
use jevbus::cache_key::encoding;
use jevbus::{
    Answer, AnswerSet, CacheError, CacheKey, CacheStats, Cached, Duration, Instant, JudgeError,
    MemoryLru, NonZeroUsize, OrderedMap, Payload, Probability, Question, QuestionName,
    QuestionSet, Ttl, ZeroTtl,
};

fn questions(text: &str) -> QuestionSet {
    QuestionSet::from_iter(vec![(
        QuestionName::new("q").unwrap(),
        Question::Noul {
            instructions: text.into(),
        },
    )])
}

fn answers() -> AnswerSet {
    AnswerSet::from_iter(vec![(
        QuestionName::new("q").unwrap(),
        Answer::Noul {
            probability: Probability::one(),
        },
    )])
}

fn at(secs: u64) -> Instant {
    Instant::new(Duration::from_secs(secs))
}

fn lru(capacity: usize) -> MemoryLru {
    MemoryLru::new(NonZeroUsize::new(capacity).unwrap())
}

/// A judge in place of a real one: counts calls and answers every noul with
/// certainty.
struct Counting {
    calls: usize,
}

impl Counting {
    fn judge(&mut self, questions: &QuestionSet) -> Result<AnswerSet, JudgeError> {
        self.calls += 1;
        Ok(AnswerSet::from_iter(
            questions
                .iter()
                .into_iter()
                .map(|(name, _)| {
                    (
                        name.clone(),
                        Answer::Noul {
                            probability: Probability::one(),
                        },
                    )
                })
                .collect(),
        ))
    }
}

/// One judgment through the cache, every effect performed on the spot.
fn judge(
    cached: &mut Cached<(), ()>,
    inner: &mut Counting,
    store: &mut MemoryLru,
    now: Instant,
    payload: &Payload,
    questions: &QuestionSet,
) -> Result<AnswerSet, JudgeError> {
    let lookup: LookupStep = cached.begin(payload, questions);
    let reply = store.get(lookup.key(), now);
    let mut step = cached.looked_up(lookup, Ok(reply));
    loop {
        step = match step {
            CacheStep::Ask(ask) => ask.judged(inner.judge(questions)),
            CacheStep::Store(store_step) => {
                store.put(store_step.key(), store_step.answers(), cached.ttl(), now);
                cached.stored(store_step, Ok(()))
            }
            CacheStep::Done(result) => return result,
        };
    }
}

#[test]
fn key_is_deterministic_and_sensitive_to_payload_and_questions() {
    let p = Payload::new("hello");
    let q = questions("is it a greeting");
    assert_eq!(CacheKey::of(&p, &q), CacheKey::of(&p, &q));
    assert_ne!(
        CacheKey::of(&p, &q),
        CacheKey::of(&Payload::new("hellp"), &q)
    );
    assert_ne!(
        CacheKey::of(&p, &q),
        CacheKey::of(&p, &questions("is it a farewell"))
    );
    assert_eq!(CacheKey::of(&p, &q).hex().len(), 64);
}

#[test]
fn key_encoding_is_length_prefixed_so_boundaries_cannot_shift() {
    // "ab" + "c" vs "a" + "bc" would collide under plain concatenation.
    let left = CacheKey::of(&Payload::new("ab"), &questions("c"));
    let right = CacheKey::of(&Payload::new("a"), &questions("bc"));
    assert_ne!(left, right);
}

#[test]
fn the_encoding_frames_each_text_with_its_length() {
    let mut expected = vec![];
    for text in ["é", "q", "noul", "i"] {
        expected.extend((text.len() as u64).to_le_bytes());
        expected.extend(text.as_bytes());
    }
    assert_eq!(encoding(&Payload::new("é"), &questions("i")), expected);

    let mut criteria = OrderedMap::new();
    criteria.insert("y".to_owned(), "2".to_owned());
    criteria.insert("x".to_owned(), "1".to_owned());
    let set = QuestionSet::from_iter(vec![
        (
            QuestionName::new("s").unwrap(),
            Question::Score {
                instructions: "how".into(),
                levels: vec!["low".into(), "high".into()],
            },
        ),
        (
            QuestionName::new("c").unwrap(),
            Question::Choice {
                instructions: "which".into(),
                criteria,
            },
        ),
    ]);
    let mut expected = vec![];
    // The numbers of options and levels stand before them.
    for (texts, count) in [
        (["", "c", "choice", "which"].as_slice(), Some(2u64)),
        (["x", "1", "y", "2", "s", "score", "how"].as_slice(), Some(2)),
        (["low", "high"].as_slice(), None),
    ] {
        for text in texts {
            expected.extend((text.len() as u64).to_le_bytes());
            expected.extend(text.as_bytes());
        }
        if let Some(count) = count {
            expected.extend(count.to_le_bytes());
        }
    }
    assert_eq!(encoding(&Payload::new(""), &set), expected);
}

#[test]
fn levels_that_spell_out_further_questions_are_told_apart_from_them() {
    let score = |levels: &[&str]| Question::Score {
        instructions: "r".into(),
        levels: levels.iter().map(|l| (*l).to_owned()).collect(),
    };
    let split = QuestionSet::from_iter(vec![
        (QuestionName::new("a").unwrap(), score(&[])),
        (
            QuestionName::new("b").unwrap(),
            Question::Noul {
                instructions: "i".into(),
            },
        ),
    ]);
    let whole = QuestionSet::from_iter(vec![(
        QuestionName::new("a").unwrap(),
        score(&["b", "noul", "i"]),
    )]);
    assert_ne!(split, whole);
    let p = Payload::new("x");
    assert_ne!(encoding(&p, &split), encoding(&p, &whole));
    assert_ne!(CacheKey::of(&p, &split), CacheKey::of(&p, &whole));
}

#[test]
fn the_key_is_the_sha_256_digest_of_the_encoding() {
    // Eight zero bytes: the empty payload and no questions.
    let key = CacheKey::of(&Payload::new(""), &QuestionSet::new());
    assert_eq!(
        key.hex(),
        "af5570f5a1810b7af78caf4bc70a660f0df51e42baf91d4de5b2328de0e83dfc"
    );
    assert_eq!(key.bytes()[0], 0xaf);
    assert_eq!(key.shown(), format!("CacheKey({})", key.hex()));
    assert_eq!(CacheKey::from_digest(*key.bytes()), key);
}

#[test]
fn ttl_defaults_to_one_day_and_rejects_zero() {
    assert_eq!(Ttl::default().duration(), Duration::from_secs(86_400));
    assert_eq!(Ttl::new(Duration::zero()), Err(ZeroTtl));
    assert!(Ttl::new(Duration::from_secs(1)).is_ok());
    assert_eq!(ZeroTtl.message(), "ttl must be greater than zero");
    assert_eq!(Ttl::day(), Ttl::default());
}

#[test]
fn second_identical_request_is_served_from_the_cache() {
    let mut cached = Cached::new((), (), Ttl::default());
    let (mut inner, mut store) = (Counting { calls: 0 }, lru(8));
    let p = Payload::new("x");
    let q = questions("q");
    for _ in 0..2 {
        let result = judge(&mut cached, &mut inner, &mut store, at(0), &p, &q);
        assert_eq!(result, Ok(answers()));
    }
    assert_eq!(inner.calls, 1);
    assert_eq!(
        cached.stats(),
        CacheStats {
            hits: 1,
            misses: 1,
            faults: 0
        }
    );
}

#[test]
fn an_expired_entry_is_judged_again() {
    let ttl = Ttl::new(Duration::from_secs(60)).unwrap();
    let mut cached = Cached::new((), (), ttl);
    let (mut inner, mut store) = (Counting { calls: 0 }, lru(8));
    let p = Payload::new("x");
    let q = questions("q");
    let _ = judge(&mut cached, &mut inner, &mut store, at(0), &p, &q);
    let _ = judge(&mut cached, &mut inner, &mut store, at(59), &p, &q);
    assert_eq!(inner.calls, 1, "still live at 59s");
    let _ = judge(&mut cached, &mut inner, &mut store, at(60), &p, &q);
    assert_eq!(inner.calls, 2, "expired at 60s");
}

#[test]
fn lru_evicts_the_least_recently_used_entry_at_capacity() {
    let mut store = lru(2);
    let q = questions("q");
    let (a, b, c) = (
        CacheKey::of(&Payload::new("a"), &q),
        CacheKey::of(&Payload::new("b"), &q),
        CacheKey::of(&Payload::new("c"), &q),
    );
    store.put(a, answers(), Ttl::default(), at(0));
    store.put(b, answers(), Ttl::default(), at(0));
    let _ = store.get(&a, at(0)); // a is now the most recent
    store.put(c, answers(), Ttl::default(), at(0));
    assert_eq!(store.len(), 2);
    assert!(store.get(&a, at(0)).is_some());
    assert!(store.get(&b, at(0)).is_none(), "b was least recently used");
    assert!(store.get(&c, at(0)).is_some());
}

#[test]
fn an_expired_entry_is_held_until_it_is_touched() {
    let mut store = lru(2);
    assert!(store.is_empty());
    let key = CacheKey::of(&Payload::new("a"), &questions("q"));
    let ttl = Ttl::new(Duration::from_secs(1)).unwrap();
    store.put(key, answers(), ttl, at(10));
    assert_eq!(store.len(), 1);
    assert!(store.get(&key, at(10)).is_some());
    assert!(store.get(&key, at(11)).is_none());
    assert!(store.is_empty());
}

#[test]
fn putting_again_replaces_the_entry_without_evicting() {
    let mut store = lru(2);
    let q = questions("q");
    let (a, b) = (
        CacheKey::of(&Payload::new("a"), &q),
        CacheKey::of(&Payload::new("b"), &q),
    );
    store.put(a, AnswerSet::new(), Ttl::default(), at(0));
    store.put(b, answers(), Ttl::default(), at(0));
    store.put(a, answers(), Ttl::default(), at(0));
    assert_eq!(store.len(), 2);
    assert_eq!(store.get(&a, at(1)), Some(answers()));
    assert_eq!(store.get(&b, at(1)), Some(answers()));
}

#[test]
fn a_broken_cache_degrades_to_misses_and_counts_faults() {
    let broken = || CacheError::Unavailable {
        reason: "down".into(),
    };
    let mut cached = Cached::new("judge", "cache", Ttl::default());
    let mut inner = Counting { calls: 0 };
    let p = Payload::new("x");
    let q = questions("q");
    for _ in 0..2 {
        let lookup = cached.begin(&p, &q);
        let CacheStep::Ask(ask) = cached.looked_up(lookup, Err(broken())) else {
            panic!("a fault is a miss");
        };
        let CacheStep::Store(store) = ask.judged(inner.judge(&q)) else {
            panic!("answers are stored");
        };
        let CacheStep::Done(result) = cached.stored(store, Err(broken())) else {
            panic!("a fault does not fail the judgment");
        };
        assert_eq!(result, Ok(answers()));
    }
    assert_eq!(inner.calls, 2);
    assert_eq!(
        cached.stats().faults,
        4,
        "one get and one put fault per call"
    );
    assert_eq!(
        cached.stats(),
        CacheStats {
            hits: 0,
            misses: 2,
            faults: 4
        }
    );
    assert_eq!((*cached.inner(), *cached.cache()), ("judge", "cache"));
}

#[test]
fn judge_errors_are_not_cached() {
    let mut cached = Cached::new((), (), Ttl::default());
    let mut store = lru(8);
    let lookup = cached.begin(&Payload::new("x"), &questions("q"));
    let reply = store.get(lookup.key(), at(0));
    let CacheStep::Ask(ask) = cached.looked_up(lookup, Ok(reply)) else {
        panic!("nothing is cached yet");
    };
    let error = JudgeError::Unavailable {
        reason: "down".into(),
    };
    let CacheStep::Done(result) = ask.judged(Err(error.clone())) else {
        panic!("an error is not stored");
    };
    assert_eq!(result, Err(error));
    assert!(store.is_empty());
    assert_eq!(cached.stats(), CacheStats::default(), "no answer came");
}

#[test]
fn cache_errors_are_put_into_words() {
    assert_eq!(
        CacheError::Unavailable { reason: "x".into() }.message(),
        "cache unavailable: x"
    );
    assert_eq!(
        CacheError::Corrupt { reason: "x".into() }.message(),
        "cache entry corrupt: x"
    );
    assert_eq!(CacheError::Poisoned.message(), "cache lock poisoned");
}
