//! What a cached answer is filed under: a digest of the payload and questions.

use crate::event::Payload;
use crate::ordered;
use crate::ordered::OrderedMap;
use crate::question;
use crate::question::{Question, QuestionName, QuestionSet};
use crate::routing;
use crate::subscription;
use crate::text;
use crate::text::hex_text;
use sha2::{Digest, Sha256};
use vstd::bytes::*;
use vstd::prelude::*;
use vstd::utf8::*;

verus! {

/// The options and descriptions of a choice, each option before its
/// description.
pub open spec fn flattened(options: Seq<(Seq<char>, Seq<char>)>) -> Seq<Seq<char>>
    decreases options.len(),
{
    if options.len() == 0 {
        Seq::empty()
    } else {
        flattened(options.drop_last()) + seq![options.last().0, options.last().1]
    }
}

/// The word for a question's kind.
pub open spec fn kind_word(question: question::QuestionView) -> Seq<char> {
    match question {
        question::QuestionView::Noul { .. } => "noul"@,
        question::QuestionView::Choice { .. } => "choice"@,
        question::QuestionView::Score { .. } => "score"@,
    }
}

/// A question's instructions.
pub open spec fn instructions(question: question::QuestionView) -> Seq<char> {
    match question {
        question::QuestionView::Noul { instructions } => instructions,
        question::QuestionView::Choice { instructions, .. } => instructions,
        question::QuestionView::Score { instructions, .. } => instructions,
    }
}

/// The texts behind a question's instructions: none, the options of a choice in
/// option order, or the levels of a score.
pub open spec fn particulars(question: question::QuestionView) -> Seq<Seq<char>> {
    match question {
        question::QuestionView::Noul { .. } => Seq::empty(),
        question::QuestionView::Choice { criteria, .. } => flattened(
            ordered::sorted_entries::<String, Seq<char>>(criteria),
        ),
        question::QuestionView::Score { levels, .. } => levels,
    }
}

/// How many options a choice has, or levels a score.
pub open spec fn tally(question: question::QuestionView) -> nat {
    match question {
        question::QuestionView::Noul { .. } => 0,
        question::QuestionView::Choice { criteria, .. } => ordered::sorted_entries::<
            String,
            Seq<char>,
        >(criteria).len(),
        question::QuestionView::Score { levels, .. } => levels.len(),
    }
}

/// One text: the length of its UTF-8 form as a little-endian `u64`, then that
/// form.
pub open spec fn framed(piece: Seq<char>) -> Seq<u8> {
    spec_u64_to_le_bytes(encode_utf8(piece).len() as u64) + encode_utf8(piece)
}

/// Texts, one after the other.
pub open spec fn all_framed(pieces: Seq<Seq<char>>) -> Seq<u8>
    decreases pieces.len(),
{
    if pieces.len() == 0 {
        Seq::empty()
    } else {
        all_framed(pieces.drop_last()) + framed(pieces.last())
    }
}

/// A number as a little-endian `u64`.
pub open spec fn counted(number: nat) -> Seq<u8> {
    spec_u64_to_le_bytes(number as u64)
}

/// What follows a question's instructions: nothing, or the number of a choice's
/// options and the options, or the number of a score's levels and the levels.
pub open spec fn particular_bytes(question: question::QuestionView) -> Seq<u8> {
    if question is Noul {
        Seq::empty()
    } else {
        counted(tally(question)) + all_framed(particulars(question))
    }
}

/// A question: its kind, its instructions and what follows them.
pub open spec fn question_bytes(question: question::QuestionView) -> Seq<u8> {
    framed(kind_word(question)) + framed(instructions(question)) + particular_bytes(question)
}

/// Named questions, one after the other, each behind its name.
pub open spec fn list_bytes(list: Seq<(Seq<char>, question::QuestionView)>) -> Seq<u8>
    decreases list.len(),
{
    if list.len() == 0 {
        Seq::empty()
    } else {
        framed(list[0].0) + question_bytes(list[0].1) + list_bytes(list.drop_first())
    }
}

/// The byte string that is digested for a payload and the questions about it,
/// in name order.
pub open spec fn encoding_of(
    payload: Seq<char>,
    questions: Map<Seq<char>, question::QuestionView>,
) -> Seq<u8> {
    framed(payload) + list_bytes(question::question_list(questions))
}

/// The UTF-8 form of the text has a length that a `u64` holds.
pub open spec fn countable_text(piece: Seq<char>) -> bool {
    encode_utf8(piece).len() <= u64::MAX
}

/// So has that of every text.
pub open spec fn countable_texts(pieces: Seq<Seq<char>>) -> bool {
    forall|i: int| 0 <= i < pieces.len() ==> countable_text(#[trigger] pieces[i])
}

/// A `u64` holds every length and number of a question.
pub open spec fn countable_question(question: question::QuestionView) -> bool {
    &&& countable_text(kind_word(question))
    &&& countable_text(instructions(question))
    &&& countable_texts(particulars(question))
    &&& tally(question) <= u64::MAX
}

/// A `u64` holds every length and number of named questions.
pub open spec fn countable_list(list: Seq<(Seq<char>, question::QuestionView)>) -> bool {
    forall|i: int|
        0 <= i < list.len() ==> countable_text((#[trigger] list[i]).0) && countable_question(
            list[i].1,
        )
}

/// A `u64` holds every length and number of a payload and the questions about
/// it, as it does wherever they fit in memory.
pub open spec fn countable(
    payload: Seq<char>,
    questions: Map<Seq<char>, question::QuestionView>,
) -> bool {
    countable_text(payload) && countable_list(question::question_list(questions))
}

/// The questions, and the options of each choice, have listings in order, as
/// those of every [`QuestionSet`] do.
pub open spec fn listed_questions(questions: Map<Seq<char>, question::QuestionView>) -> bool {
    &&& ordered::listable::<QuestionName, question::QuestionView>(questions)
    &&& listed_options(question::question_list(questions))
}

/// The options of each choice have a listing in order.
pub open spec fn listed_options(list: Seq<(Seq<char>, question::QuestionView)>) -> bool {
    forall|i: int| 0 <= i < list.len() ==> listed_question((#[trigger] list[i]).1)
}

/// The options of a choice have a listing in order.
pub open spec fn listed_question(question: question::QuestionView) -> bool {
    question matches question::QuestionView::Choice { criteria, .. } ==> ordered::listable::<
        String,
        Seq<char>,
    >(criteria)
}

/// Appends one text.
fn feed(bytes: &mut Vec<u8>, piece: &str)
    ensures
        final(bytes)@ == old(bytes)@ + framed(piece@),
        countable_text(piece@),
{
    let form: &[u8] = piece.as_bytes();
    let ghost before = bytes@;
    let mut length = u64_to_le_bytes(form.len() as u64);
    bytes.append(&mut length);
    let mut i: usize = 0;
    let ghost start = bytes@;
    while i < form.len()
        invariant
            i <= form@.len(),
            bytes@ == start + form@.take(i as int),
        decreases form@.len() - i,
    {
        bytes.push(form[i]);
        assert(form@.take(i + 1) =~= form@.take(i as int).push(form@[i as int]));
        assert(bytes@ =~= start + form@.take(i + 1));
        i = i + 1;
    }
    assert(form@.take(i as int) =~= form@);
    assert(bytes@ =~= before + framed(piece@));
}

/// Appends a number.
fn feed_count(bytes: &mut Vec<u8>, number: usize)
    ensures
        final(bytes)@ == old(bytes)@ + counted(number as nat),
        number <= u64::MAX,
{
    let mut count = u64_to_le_bytes(number as u64);
    bytes.append(&mut count);
}

proof fn lemma_all_framed_push(pieces: Seq<Seq<char>>, piece: Seq<char>)
    ensures
        all_framed(pieces.push(piece)) == all_framed(pieces) + framed(piece),
        countable_texts(pieces) && countable_text(piece) ==> countable_texts(pieces.push(piece)),
{
    assert(pieces.push(piece).drop_last() =~= pieces);
}

/// Appends the options of a choice.
fn feed_options(bytes: &mut Vec<u8>, criteria: &OrderedMap<String, String>)
    ensures
        ({
            let options = ordered::sorted_entries::<String, Seq<char>>(criteria@);
            &&& final(bytes)@ == old(bytes)@ + counted(options.len()) + all_framed(
                flattened(options),
            )
            &&& countable_texts(flattened(options))
            &&& options.len() <= u64::MAX
            &&& ordered::listable::<String, Seq<char>>(criteria@)
        }),
{
    let options = criteria.iter();
    let ghost listed = ordered::sorted_entries::<String, Seq<char>>(criteria@);
    feed_count(bytes, options.len());
    let ghost start = bytes@;
    let mut i: usize = 0;
    assert(bytes@ =~= start + all_framed(flattened(listed.take(0))));
    while i < options.len()
        invariant
            i <= options@.len(),
            options@.len() == listed.len(),
            forall|j: int|
                0 <= j < options@.len() ==> (#[trigger] options@[j]).0@ == listed[j].0
                    && options@[j].1@ == listed[j].1,
            bytes@ == start + all_framed(flattened(listed.take(i as int))),
            countable_texts(flattened(listed.take(i as int))),
        decreases options@.len() - i,
    {
        let (option, description) = options[i];
        feed(bytes, option.as_str());
        feed(bytes, description.as_str());
        proof {
            let fed = flattened(listed.take(i as int));
            let next = listed.take(i + 1);
            lemma_all_framed_push(fed, option@);
            lemma_all_framed_push(fed.push(option@), description@);
            assert(next.drop_last() =~= listed.take(i as int));
            assert(fed.push(option@).push(description@) =~= flattened(next));
            assert(bytes@ =~= start + all_framed(flattened(next)));
        }
        i = i + 1;
    }
    assert(listed.take(i as int) =~= listed);
}

/// Appends the levels of a score.
fn feed_levels(bytes: &mut Vec<u8>, levels: &Vec<String>)
    ensures
        final(bytes)@ == old(bytes)@ + counted(levels@.len()) + all_framed(
            ordered::views(levels@),
        ),
        countable_texts(ordered::views(levels@)),
        levels@.len() <= u64::MAX,
{
    let ghost listed = ordered::views(levels@);
    feed_count(bytes, levels.len());
    let ghost start = bytes@;
    let mut i: usize = 0;
    assert(bytes@ =~= start + all_framed(listed.take(0)));
    while i < levels.len()
        invariant
            i <= levels@.len(),
            listed == ordered::views(levels@),
            bytes@ == start + all_framed(listed.take(i as int)),
            countable_texts(listed.take(i as int)),
        decreases levels@.len() - i,
    {
        feed(bytes, levels[i].as_str());
        proof {
            let fed = listed.take(i as int);
            lemma_all_framed_push(fed, levels@[i as int]@);
            assert(fed.push(levels@[i as int]@) =~= listed.take(i + 1));
            assert(bytes@ =~= start + all_framed(listed.take(i + 1)));
        }
        i = i + 1;
    }
    assert(listed.take(i as int) =~= listed);
}

/// Appends a question, after its name.
fn feed_question(bytes: &mut Vec<u8>, question: &Question)
    ensures
        final(bytes)@ == old(bytes)@ + question_bytes(question@),
        countable_question(question@),
        listed_question(question@),
{
    let ghost before = bytes@;
    match question {
        Question::Noul { instructions } => {
            feed(bytes, "noul");
            feed(bytes, instructions.as_str());
        },
        Question::Choice { instructions, criteria } => {
            feed(bytes, "choice");
            feed(bytes, instructions.as_str());
            feed_options(bytes, criteria);
        },
        Question::Score { instructions, levels } => {
            feed(bytes, "score");
            feed(bytes, instructions.as_str());
            feed_levels(bytes, levels);
        },
    }
    assert(bytes@ =~= before + question_bytes(question@));
}

proof fn lemma_list_bytes_push(
    list: Seq<(Seq<char>, question::QuestionView)>,
    entry: (Seq<char>, question::QuestionView),
)
    ensures
        list_bytes(list.push(entry)) == list_bytes(list) + (framed(entry.0) + question_bytes(
            entry.1,
        )),
    decreases list.len(),
{
    let longer = list.push(entry);
    if list.len() == 0 {
        assert(longer.drop_first() =~= list);
    } else {
        lemma_list_bytes_push(list.drop_first(), entry);
        assert(longer.drop_first() =~= list.drop_first().push(entry));
    }
    assert(list_bytes(longer) =~= list_bytes(list) + (framed(entry.0) + question_bytes(entry.1)));
}

/// The byte string that is digested for `payload` and `questions`.
pub fn encoding(payload: &Payload, questions: &QuestionSet) -> (bytes: Vec<u8>)
    ensures
        bytes@ == encoding_of(payload@, questions@),
        listed_questions(questions@),
        countable(payload@, questions@),
{
    let mut bytes: Vec<u8> = Vec::new();
    feed(&mut bytes, payload.as_str());
    let ghost list = question::question_list(questions@);
    let entries = questions.iter();
    let mut i: usize = 0;
    assert(bytes@ =~= framed(payload@) + list_bytes(list.take(0)));
    while i < entries.len()
        invariant
            i <= entries@.len(),
            entries@.len() == list.len(),
            forall|j: int|
                0 <= j < entries@.len() ==> (#[trigger] entries@[j]).0@ == list[j].0
                    && entries@[j].1@ == list[j].1,
            bytes@ == framed(payload@) + list_bytes(list.take(i as int)),
            countable_list(list.take(i as int)),
            listed_options(list.take(i as int)),
        decreases entries@.len() - i,
    {
        let (name, question) = entries[i];
        feed(&mut bytes, name.as_str());
        feed_question(&mut bytes, question);
        proof {
            let entry = (name@, question@);
            lemma_list_bytes_push(list.take(i as int), entry);
            assert(list.take(i + 1) =~= list.take(i as int).push(entry));
            assert(bytes@ =~= framed(payload@) + list_bytes(list.take(i + 1)));
        }
        i = i + 1;
    }
    assert(list.take(i as int) =~= list);
    bytes
}

/// The SHA-256 digest of a byte string.
pub uninterp spec fn sha256_digest(bytes: Seq<u8>) -> Seq<u8>;

/// `Sha256::digest` of the `sha2` crate. Nothing is claimed of the digest but
/// that the bytes decide it.
#[verifier::external_body]
fn sha256(bytes: &[u8]) -> (digest: [u8; 32])
    ensures
        digest@ == sha256_digest(bytes@),
{
    Sha256::digest(bytes).into()
}

/// Identifies one (payload, question set) pair.
///
/// Its view is the digest.
#[derive(Debug, Clone, Copy, PartialEq, Eq, Hash, PartialOrd, Ord)]
pub struct CacheKey {
    digest: [u8; 32],
}

impl View for CacheKey {
    type V = Seq<u8>;

    closed spec fn view(&self) -> Seq<u8> {
        self.digest@
    }
}

impl CacheKey {
    /// The digest of `payload` and `questions`.
    pub fn of(payload: &Payload, questions: &QuestionSet) -> (key: CacheKey)
        ensures
            key@ == sha256_digest(encoding_of(payload@, questions@)),
    {
        let bytes = encoding(payload, questions);
        CacheKey::from_digest(sha256(bytes.as_slice()))
    }

    /// The key with this digest.
    pub fn from_digest(digest: [u8; 32]) -> (key: CacheKey)
        ensures
            key@ == digest@,
    {
        CacheKey { digest }
    }

    /// The raw digest.
    pub fn bytes(&self) -> (digest: &[u8; 32])
        ensures
            digest@ == self@,
    {
        &self.digest
    }

    /// Lower-case hex, for backends that key by string.
    pub fn hex(&self) -> (rendered: String)
        ensures
            rendered@ == text::hex(self@),
            rendered@.len() == 64,
    {
        proof {
            text::lemma_hex_len(self.digest@);
        }
        hex_text(self.digest.as_slice())
    }

    /// How the key is shown to a developer.
    pub fn shown(&self) -> (text: String)
        ensures
            text@ == "CacheKey("@ + text::hex(self@) + ")"@,
    {
        let mut text = "CacheKey(".to_owned();
        text.append(self.hex().as_str());
        text.append(")");
        text
    }
}

/// A text at the front of a byte string ends where its length says.
proof fn lemma_front_text(a: Seq<char>, ra: Seq<u8>, b: Seq<char>, rb: Seq<u8>)
    requires
        countable_text(a),
        countable_text(b),
        framed(a) + ra == framed(b) + rb,
    ensures
        a == b,
        ra == rb,
{
    let (x, y) = (encode_utf8(a), encode_utf8(b));
    assert(framed(a) + ra =~= counted(x.len()) + (x + ra));
    assert(framed(b) + rb =~= counted(y.len()) + (y + rb));
    lemma_front_count(x.len(), x + ra, y.len(), y + rb);
    lemma_same_front(x, ra, y, rb);
    text::lemma_encode_utf8_injective(a, b);
}

/// A number at the front of a byte string takes eight bytes.
proof fn lemma_front_count(a: nat, ra: Seq<u8>, b: nat, rb: Seq<u8>)
    requires
        a <= u64::MAX,
        b <= u64::MAX,
        counted(a) + ra == counted(b) + rb,
    ensures
        a == b,
        ra == rb,
{
    lemma_u64_bytes(a as u64);
    lemma_u64_bytes(b as u64);
    lemma_same_front(counted(a), ra, counted(b), rb);
    assert(a as u64 == b as u64);
}

/// As many texts at the front of a byte string end where their lengths say.
proof fn lemma_front_texts(a: Seq<Seq<char>>, ra: Seq<u8>, b: Seq<Seq<char>>, rb: Seq<u8>)
    requires
        a.len() == b.len(),
        countable_texts(a),
        countable_texts(b),
        all_framed(a) + ra == all_framed(b) + rb,
    ensures
        a == b,
        ra == rb,
    decreases a.len(),
{
    if a.len() == 0 {
        assert(a =~= b);
        assert(all_framed(a) + ra =~= ra);
        assert(all_framed(b) + rb =~= rb);
    } else {
        let (ta, tb) = (a.drop_first(), b.drop_first());
        lemma_front_framed(a);
        lemma_front_framed(b);
        assert(all_framed(a) + ra =~= framed(a[0]) + (all_framed(ta) + ra));
        assert(all_framed(b) + rb =~= framed(b[0]) + (all_framed(tb) + rb));
        lemma_front_text(a[0], all_framed(ta) + ra, b[0], all_framed(tb) + rb);
        lemma_rest_countable(a);
        lemma_rest_countable(b);
        lemma_front_texts(ta, ra, tb, rb);
        assert(a =~= seq![a[0]] + ta);
        assert(b =~= seq![b[0]] + tb);
    }
}

proof fn lemma_rest_countable(pieces: Seq<Seq<char>>)
    requires
        countable_texts(pieces),
        pieces.len() > 0,
    ensures
        countable_texts(pieces.drop_first()),
{
    let rest = pieces.drop_first();
    assert forall|i: int| 0 <= i < rest.len() implies countable_text(#[trigger] rest[i]) by {
        assert(rest[i] == pieces[i + 1]);
    }
}

/// Law: no two lists of texts share a byte string; boundaries cannot shift.
pub proof fn law_framing_keeps_boundaries(a: Seq<Seq<char>>, b: Seq<Seq<char>>)
    requires
        countable_texts(a),
        countable_texts(b),
        all_framed(a) == all_framed(b),
    ensures
        a == b,
    decreases a.len(),
{
    lemma_front_framed(a);
    lemma_front_framed(b);
    if a.len() == 0 || b.len() == 0 {
        if a.len() > 0 {
            lemma_u64_bytes(encode_utf8(a[0]).len() as u64);
            assert(all_framed(a).len() > 0);
        }
        if b.len() > 0 {
            lemma_u64_bytes(encode_utf8(b[0]).len() as u64);
            assert(all_framed(b).len() > 0);
        }
        assert(a =~= b);
    } else {
        let (ra, rb) = (a.drop_first(), b.drop_first());
        lemma_front_text(a[0], all_framed(ra), b[0], all_framed(rb));
        lemma_rest_countable(a);
        lemma_rest_countable(b);
        law_framing_keeps_boundaries(ra, rb);
        assert(a =~= seq![a[0]] + ra);
        assert(b =~= seq![b[0]] + rb);
    }
}

proof fn lemma_u64_bytes(x: u64)
    ensures
        spec_u64_to_le_bytes(x).len() == 8,
        spec_u64_from_le_bytes(spec_u64_to_le_bytes(x)) == x,
{
    lemma_auto_spec_u64_to_from_le_bytes();
}

proof fn lemma_same_front<A>(a: Seq<A>, ra: Seq<A>, b: Seq<A>, rb: Seq<A>)
    requires
        a.len() == b.len(),
        a + ra == b + rb,
    ensures
        a == b,
        ra == rb,
{
    assert(a =~= (a + ra).take(a.len() as int));
    assert(b =~= (b + rb).take(b.len() as int));
    assert(ra =~= (a + ra).skip(a.len() as int));
    assert(rb =~= (b + rb).skip(b.len() as int));
}

proof fn lemma_front_framed(pieces: Seq<Seq<char>>)
    ensures
        pieces.len() > 0 ==> all_framed(pieces) == framed(pieces[0]) + all_framed(
            pieces.drop_first(),
        ),
    decreases pieces.len(),
{
    if pieces.len() == 1 {
        assert(pieces.drop_first() =~= Seq::<Seq<char>>::empty());
        assert(pieces.drop_last() =~= Seq::<Seq<char>>::empty());
        assert(all_framed(pieces) =~= framed(pieces[0]) + all_framed(pieces.drop_first()));
    } else if pieces.len() > 1 {
        let (init, rest) = (pieces.drop_last(), pieces.drop_first());
        lemma_front_framed(init);
        assert(init.drop_first() =~= rest.drop_last());
        assert(all_framed(pieces) =~= framed(pieces[0]) + all_framed(rest));
    }
}

proof fn lemma_kind_words()
    ensures
        "noul"@ != "choice"@,
        "noul"@ != "score"@,
        "choice"@ != "score"@,
{
    reveal_strlit("noul");
    reveal_strlit("choice");
    reveal_strlit("score");
    assert("noul"@.len() == 4 && "choice"@.len() == 6 && "score"@.len() == 5);
}

proof fn lemma_flattened_len(options: Seq<(Seq<char>, Seq<char>)>)
    ensures
        flattened(options).len() == 2 * options.len(),
    decreases options.len(),
{
    if options.len() > 0 {
        lemma_flattened_len(options.drop_last());
    }
}

proof fn lemma_flattened_injective(
    a: Seq<(Seq<char>, Seq<char>)>,
    b: Seq<(Seq<char>, Seq<char>)>,
)
    requires
        flattened(a) == flattened(b),
    ensures
        a == b,
    decreases a.len(),
{
    lemma_flattened_len(a);
    lemma_flattened_len(b);
    if a.len() > 0 {
        let (fa, fb) = (flattened(a.drop_last()), flattened(b.drop_last()));
        lemma_flattened_len(a.drop_last());
        lemma_flattened_len(b.drop_last());
        lemma_same_front(
            fa,
            seq![a.last().0, a.last().1],
            fb,
            seq![b.last().0, b.last().1],
        );
        let (pa, pb) = (seq![a.last().0, a.last().1], seq![b.last().0, b.last().1]);
        assert(pa[0] == pb[0] && pa[1] == pb[1]);
        lemma_flattened_injective(a.drop_last(), b.drop_last());
        assert(a =~= a.drop_last().push(a.last()));
        assert(b =~= b.drop_last().push(b.last()));
    } else {
        assert(a =~= b);
    }
}

/// A question at the front of a byte string ends where its numbers and lengths
/// say.
proof fn lemma_front_question(
    a: question::QuestionView,
    ra: Seq<u8>,
    b: question::QuestionView,
    rb: Seq<u8>,
)
    requires
        countable_question(a),
        countable_question(b),
        listed_question(a),
        listed_question(b),
        question_bytes(a) + ra == question_bytes(b) + rb,
    ensures
        a == b,
        ra == rb,
{
    let (ia, ib) = (framed(instructions(a)), framed(instructions(b)));
    let (pa, pb) = (particular_bytes(a), particular_bytes(b));
    assert(question_bytes(a) + ra =~= framed(kind_word(a)) + (ia + (pa + ra)));
    assert(question_bytes(b) + rb =~= framed(kind_word(b)) + (ib + (pb + rb)));
    lemma_front_text(kind_word(a), ia + (pa + ra), kind_word(b), ib + (pb + rb));
    lemma_front_text(instructions(a), pa + ra, instructions(b), pb + rb);
    lemma_kind_words();
    if a is Noul {
        assert(pa + ra =~= ra);
        assert(pb + rb =~= rb);
    } else {
        let (ta, tb) = (all_framed(particulars(a)), all_framed(particulars(b)));
        assert(pa + ra =~= counted(tally(a)) + (ta + ra));
        assert(pb + rb =~= counted(tally(b)) + (tb + rb));
        lemma_front_count(tally(a), ta + ra, tally(b), tb + rb);
        lemma_particular_count(a);
        lemma_particular_count(b);
        lemma_front_texts(particulars(a), ra, particulars(b), rb);
        if let question::QuestionView::Choice { criteria: ca, .. } = a {
            if let question::QuestionView::Choice { criteria: cb, .. } = b {
                lemma_flattened_injective(
                    ordered::sorted_entries::<String, Seq<char>>(ca),
                    ordered::sorted_entries::<String, Seq<char>>(cb),
                );
                ordered::lemma_listing_decides::<String, Seq<char>>(ca, cb);
            }
        }
    }
}

proof fn lemma_particular_count(question: question::QuestionView)
    ensures
        particulars(question).len() == if question is Choice {
            2 * tally(question)
        } else {
            tally(question)
        },
{
    if let question::QuestionView::Choice { criteria, .. } = question {
        lemma_flattened_len(ordered::sorted_entries::<String, Seq<char>>(criteria));
    }
}

proof fn lemma_list_bytes_injective(
    a: Seq<(Seq<char>, question::QuestionView)>,
    b: Seq<(Seq<char>, question::QuestionView)>,
)
    requires
        listed_options(a),
        listed_options(b),
        countable_list(a),
        countable_list(b),
        list_bytes(a) == list_bytes(b),
    ensures
        a == b,
    decreases a.len(),
{
    if a.len() == 0 || b.len() == 0 {
        if a.len() > 0 {
            lemma_u64_bytes(encode_utf8(a[0].0).len() as u64);
            assert(list_bytes(a).len() > 0);
        }
        if b.len() > 0 {
            lemma_u64_bytes(encode_utf8(b[0].0).len() as u64);
            assert(list_bytes(b).len() > 0);
        }
        assert(a =~= b);
    } else {
        let (ra, rb) = (a.drop_first(), b.drop_first());
        let (ta, tb) = (list_bytes(ra), list_bytes(rb));
        let (qa, qb) = (question_bytes(a[0].1), question_bytes(b[0].1));
        assert(list_bytes(a) =~= framed(a[0].0) + (qa + ta));
        assert(list_bytes(b) =~= framed(b[0].0) + (qb + tb));
        lemma_front_text(a[0].0, qa + ta, b[0].0, qb + tb);
        lemma_front_question(a[0].1, ta, b[0].1, tb);
        lemma_rest_listed(a);
        lemma_rest_listed(b);
        lemma_list_bytes_injective(ra, rb);
        assert(a =~= seq![a[0]] + ra);
        assert(b =~= seq![b[0]] + rb);
    }
}

proof fn lemma_rest_listed(list: Seq<(Seq<char>, question::QuestionView)>)
    requires
        listed_options(list),
        countable_list(list),
        list.len() > 0,
    ensures
        listed_options(list.drop_first()),
        countable_list(list.drop_first()),
{
    let rest = list.drop_first();
    assert forall|i: int| 0 <= i < rest.len() implies listed_question((#[trigger] rest[i]).1)
        && countable_text(rest[i].0) && countable_question(rest[i].1) by {
        assert(rest[i] == list[i + 1]);
    }
}

/// Law: no two distinct inputs share a byte string.
pub proof fn law_encoding_is_injective(
    p: Seq<char>,
    a: Map<Seq<char>, question::QuestionView>,
    q: Seq<char>,
    b: Map<Seq<char>, question::QuestionView>,
)
    requires
        listed_questions(a),
        listed_questions(b),
        countable(p, a),
        countable(q, b),
    ensures
        encoding_of(p, a) == encoding_of(q, b) <==> p == q && a == b,
{
    if encoding_of(p, a) == encoding_of(q, b) {
        let (la, lb) = (question::question_list(a), question::question_list(b));
        lemma_front_text(p, list_bytes(la), q, list_bytes(lb));
        lemma_list_bytes_injective(la, lb);
        ordered::lemma_listing_decides::<QuestionName, question::QuestionView>(a, b);
    }
}

/// Law: an edited subscription never meets an answer of the old one: the
/// questions of two plans share a byte string only where payloads and plans are
/// the same.
pub proof fn law_plans_have_distinct_encodings(
    p: Seq<char>,
    policy: routing::Policy,
    subscriptions: Seq<subscription::SubscriptionView>,
    q: Seq<char>,
    other_policy: routing::Policy,
    other_subscriptions: Seq<subscription::SubscriptionView>,
)
    requires
        countable(p, routing::planned(policy, subscriptions)),
        countable(q, routing::planned(other_policy, other_subscriptions)),
    ensures
        encoding_of(p, routing::planned(policy, subscriptions)) == encoding_of(
            q,
            routing::planned(other_policy, other_subscriptions),
        ) <==> p == q && routing::planned(policy, subscriptions) == routing::planned(
            other_policy,
            other_subscriptions,
        ),
{
    let a = routing::planned(policy, subscriptions);
    let b = routing::planned(other_policy, other_subscriptions);
    lemma_planned(policy, subscriptions);
    lemma_planned(other_policy, other_subscriptions);
    law_encoding_is_injective(p, a, q, b);
}

proof fn lemma_planned(
    policy: routing::Policy,
    subscriptions: Seq<subscription::SubscriptionView>,
)
    ensures
        listed_questions(routing::planned(policy, subscriptions)),
{
    let plan = routing::planned(policy, subscriptions);
    let list = question::question_list(plan);
    let none = Seq::<(Seq<char>, question::QuestionView)>::empty();
    let entries = match policy {
        routing::Policy::FanOut => routing::named_questions(subscriptions),
        routing::Policy::Exclusive => if subscriptions.len() == 0 {
            none
        } else {
            none.push((routing::EXCLUSIVE_QUESTION@, routing::exclusive_question(subscriptions)))
        },
    };
    if policy == routing::Policy::Exclusive && subscriptions.len() > 0 {
        assert(entries.drop_last() =~= none);
        assert(ordered::collected(entries) == ordered::collected(none).insert(
            entries.last().0,
            entries.last().1,
        ));
    }
    assert(ordered::collected(none) == Map::<Seq<char>, question::QuestionView>::empty());
    assert(ordered::collected(entries) == plan);
    ordered::lemma_collected_listable::<QuestionName, question::QuestionView>(entries);
    ordered::lemma_collected_listable::<String, Seq<char>>(
        routing::named_instructions(subscriptions),
    );
    ordered::lemma_collected(entries);
    assert forall|i: int| 0 <= i < list.len() implies listed_question(
        (#[trigger] list[i]).1,
    ) by {
        ordered::lemma_position_unique::<QuestionName, question::QuestionView>(list, i);
        assert(plan.contains_key(list[i].0));
        let j = choose|j: int|
            ordered::holds_at(entries, list[i].0, j) && ordered::collected(entries)[list[i].0] == (
            #[trigger] entries[j]).1;
        assert(listed_question(entries[j].1));
    }
}

} // verus!
