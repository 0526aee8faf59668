//! Multi-question input requests and their progress text.
use vstd::prelude::*;
use crate::ids::{first_index, lemma_first_index_at, lemma_first_index_none};
use crate::json::{as_flag, as_text, elements_of, flag_of, member, text_of, JsonValue};
use crate::text::str_eq;
use crate::text::{append, blank, decimal, decimal_string, is_blank, join, join_strings, owned};

verus! {

#[derive(Debug)]
pub struct InputOption {
    pub label: String,
    pub description: String,
}

#[derive(Debug)]
pub struct InputQuestion {
    pub id: String,
    pub header: String,
    pub question: String,
    pub options: Vec<InputOption>,
    pub secret: bool,
}

/// Answers collected so far and the question being asked.
#[derive(Debug)]
pub struct InputProgress {
    pub questions: Vec<InputQuestion>,
    pub answers: Vec<Option<String>>,
    pub current: usize,
}

pub open spec fn shown_answer(question: InputQuestion, answer: Seq<char>) -> Seq<char> {
    if question.secret { "[hidden]"@ } else { answer }
}

/// An answer as displayed: secret answers are hidden.
pub fn displayed_answer<'a>(question: &InputQuestion, answer: &'a str) -> (r: &'a str)
    ensures
        r@ == shown_answer(*question, answer@),
{
    if question.secret { "[hidden]" } else { answer }
}

/// `n. **header:** answer` for each answered question, in order.
pub open spec fn answered_lines(questions: Seq<InputQuestion>, answers: Seq<Option<String>>, n: int) -> Seq<Seq<char>>
    decreases n,
{
    if n <= 0 {
        Seq::empty()
    } else {
        let rest = answered_lines(questions, answers, n - 1);
        match answers[n - 1] {
            Some(a) => rest.push(
                decimal(n as nat) + ". **"@ + questions[n - 1].header@ + ":** "@ + shown_answer(questions[n - 1], a@),
            ),
            None => rest,
        }
    }
}

pub open spec fn answered_count(p: InputProgress) -> int {
    if p.questions@.len() < p.answers@.len() { p.questions@.len() as int } else { p.answers@.len() as int }
}

fn answered(progress: &InputProgress) -> (r: Vec<String>)
    ensures
        r@.map_values(|s: String| s@) == answered_lines(progress.questions@, progress.answers@, answered_count(*progress)),
{
    let n = if progress.questions.len() < progress.answers.len() { progress.questions.len() } else { progress.answers.len() };
    let mut lines: Vec<String> = Vec::new();
    let mut i: usize = 0;
    while i < n
        invariant
            i <= n,
            n == answered_count(*progress),
            n <= progress.questions.len(),
            n <= progress.answers.len(),
            lines@.map_values(|s: String| s@) == answered_lines(progress.questions@, progress.answers@, i as int),
        decreases n - i,
    {
        match &progress.answers[i] {
            Some(a) => {
                let question = &progress.questions[i];
                let mut line = decimal_string((i + 1) as u64);
                append(&mut line, ". **");
                append(&mut line, question.header.as_str());
                append(&mut line, ":** ");
                append(&mut line, displayed_answer(question, a.as_str()));
                let ghost before = lines@.map_values(|s: String| s@);
                lines.push(line);
                assert(lines@.map_values(|s: String| s@) =~= before.push(line@));
            },
            None => {},
        }
        i = i + 1;
    }
    lines
}

pub open spec fn option_line(o: InputOption) -> Seq<char> {
    if blank(o.description@) {
        "- **"@ + o.label@ + "**"@
    } else {
        "- **"@ + o.label@ + "** — "@ + o.description@
    }
}

pub open spec fn current_section(p: InputProgress, awaiting_custom: bool) -> Seq<char> {
    let q = p.questions@[p.current as int];
    let head = "**Question "@ + decimal((p.current + 1) as nat) + " of "@ + decimal(p.questions@.len()) + " · "@
        + q.header@ + "**\n"@ + q.question@;
    let with_options = if q.options@.len() > 0 {
        head + "\n\n"@ + join(q.options@.map_values(|o: InputOption| option_line(o)), "\n"@)
    } else {
        head
    };
    with_options + if awaiting_custom {
        "\n\nReply with your custom answer. Use `/cancel` to return to the choices."@
    } else if q.options@.len() == 0 {
        "\n\nChoose Answer… to type your response."@
    } else {
        "\n\nChoose an option below, or choose Other… to type a custom answer."@
    }
}

/// The answers so far, then the current question with its options and how to reply.
pub open spec fn progress_body(p: InputProgress, awaiting_custom: bool) -> Seq<char> {
    let lines = answered_lines(p.questions@, p.answers@, answered_count(p));
    let s0 = if lines.len() > 0 { seq!["**Answers**\n"@ + join(lines, "\n"@)] } else { Seq::empty() };
    let s1 = if p.current < p.questions@.len() { s0.push(current_section(p, awaiting_custom)) } else { s0 };
    join(s1, "\n\n"@)
}

pub fn input_progress_body(progress: &InputProgress, awaiting_custom: bool) -> (r: String)
    requires
        progress.current < usize::MAX,
        progress.questions.len() < u64::MAX,
    ensures
        r@ == progress_body(*progress, awaiting_custom),
{
    let mut sections: Vec<String> = Vec::new();
    let lines = answered(progress);
    if lines.len() > 0 {
        let mut s = owned("**Answers**\n");
        append(&mut s, join_strings(&lines, "\n").as_str());
        sections.push(s);
    }
    let ghost s0 = sections@.map_values(|s: String| s@);
    proof {
        let lv = lines@.map_values(|s: String| s@);
        if lv.len() > 0 {
            assert(s0 =~= seq!["**Answers**\n"@ + join(lv, "\n"@)]);
        } else {
            assert(s0 =~= Seq::<Seq<char>>::empty());
        }
    }
    if progress.current < progress.questions.len() {
        let question = &progress.questions[progress.current];
        let mut current = owned("**Question ");
        append(&mut current, decimal_string((progress.current + 1) as u64).as_str());
        append(&mut current, " of ");
        append(&mut current, decimal_string(progress.questions.len() as u64).as_str());
        append(&mut current, " · ");
        append(&mut current, question.header.as_str());
        append(&mut current, "**\n");
        append(&mut current, question.question.as_str());
        if question.options.len() > 0 {
            let mut options: Vec<String> = Vec::new();
            let mut i: usize = 0;
            while i < question.options.len()
                invariant
                    i <= question.options.len(),
                    options@.map_values(|s: String| s@) == question.options@.take(i as int).map_values(|o: InputOption| option_line(o)),
                decreases question.options.len() - i,
            {
                let option = &question.options[i];
                let mut line = owned("- **");
                append(&mut line, option.label.as_str());
                if is_blank(option.description.as_str()) {
                    append(&mut line, "**");
                } else {
                    append(&mut line, "** — ");
                    append(&mut line, option.description.as_str());
                }
                let ghost before = options@.map_values(|s: String| s@);
                assert(line@ == option_line(question.options@[i as int]));
                options.push(line);
                assert(options@.map_values(|s: String| s@) =~= before.push(line@));
                assert(options@.map_values(|s: String| s@) =~= question.options@.take(i + 1).map_values(|o: InputOption| option_line(o)));
                i = i + 1;
            }
            assert(question.options@.take(i as int) =~= question.options@);
            append(&mut current, "\n\n");
            append(&mut current, join_strings(&options, "\n").as_str());
        }
        append(&mut current, if awaiting_custom {
            "\n\nReply with your custom answer. Use `/cancel` to return to the choices."
        } else if question.options.len() == 0 {
            "\n\nChoose Answer… to type your response."
        } else {
            "\n\nChoose an option below, or choose Other… to type a custom answer."
        });
        sections.push(current);
        assert(sections@.map_values(|s: String| s@) =~= s0.push(current_section(*progress, awaiting_custom)));
    }
    join_strings(&sections, "\n\n")
}

/// `**Answered**` and the answered questions.
pub fn completed_input_body(progress: &InputProgress) -> (r: String)
    ensures
        r@ == "**Answered**\n"@ + join(answered_lines(progress.questions@, progress.answers@, answered_count(*progress)), "\n"@),
{
    let lines = answered(progress);
    let mut r = owned("**Answered**\n");
    append(&mut r, join_strings(&lines, "\n").as_str());
    r
}

/// What an input request carries: its free-text detail and its structured payload.
#[derive(Debug)]
pub struct InteractionRequest {
    pub detail: String,
    pub payload: JsonValue,
}

/// A question as plain values: options are label and description pairs.
pub struct QuestionModel {
    pub id: Seq<char>,
    pub header: Seq<char>,
    pub question: Seq<char>,
    pub options: Seq<(Seq<char>, Seq<char>)>,
    pub secret: bool,
}

pub open spec fn option_model(o: InputOption) -> (Seq<char>, Seq<char>) {
    (o.label@, o.description@)
}

pub open spec fn question_model(q: InputQuestion) -> QuestionModel {
    QuestionModel {
        id: q.id@,
        header: q.header@,
        question: q.question@,
        options: q.options@.map_values(|o: InputOption| option_model(o)),
        secret: q.secret,
    }
}

/// A text that is not blank.
pub open spec fn nonblank(t: Option<Seq<char>>) -> Option<Seq<char>> {
    match t {
        Some(s) => if blank(s) { None } else { Some(s) },
        None => None,
    }
}

/// An offered option: one with a textual label; the description defaults to empty.
pub open spec fn offered_option(o: JsonValue) -> Option<(Seq<char>, Seq<char>)> {
    match text_of(member(o, "label"@)) {
        Some(label) => Some((label, match text_of(member(o, "description"@)) {
            Some(d) => d,
            None => Seq::empty(),
        })),
        None => None,
    }
}

/// The offered options among `items`, in order.
pub open spec fn offered_options(items: Seq<JsonValue>) -> Seq<(Seq<char>, Seq<char>)>
    decreases items.len(),
{
    if items.len() == 0 {
        Seq::empty()
    } else {
        let rest = offered_options(items.drop_last());
        match offered_option(items.last()) {
            Some(o) => rest.push(o),
            None => rest,
        }
    }
}

/// The question at position `index` of a request: one with a textual id. A blank
/// header becomes `Question n`, a blank prompt the request's detail.
pub open spec fn asked_question(q: JsonValue, index: nat, detail: Seq<char>) -> Option<QuestionModel> {
    match text_of(member(q, "id"@)) {
        None => None,
        Some(id) => Some(QuestionModel {
            id,
            header: match nonblank(text_of(member(q, "header"@))) {
                Some(h) => h,
                None => "Question "@ + decimal(index + 1),
            },
            question: match nonblank(text_of(member(q, "question"@))) {
                Some(p) => p,
                None => detail,
            },
            options: offered_options(elements_of(member(q, "options"@))),
            secret: match flag_of(member(q, "isSecret"@)) {
                Some(b) => b,
                None => false,
            },
        }),
    }
}

pub open spec fn asked_questions(items: Seq<JsonValue>, detail: Seq<char>) -> Seq<QuestionModel>
    decreases items.len(),
{
    if items.len() == 0 {
        Seq::empty()
    } else {
        let rest = asked_questions(items.drop_last(), detail);
        match asked_question(items.last(), (items.len() - 1) as nat, detail) {
            Some(q) => rest.push(q),
            None => rest,
        }
    }
}

/// The single question asked when the payload names none.
pub open spec fn fallback_question(detail: Seq<char>) -> QuestionModel {
    QuestionModel {
        id: "value"@,
        header: "Input"@,
        question: if blank(detail) { "Please provide an answer."@ } else { detail },
        options: Seq::empty(),
        secret: false,
    }
}

/// The questions of a request, never none.
pub open spec fn request_questions(request: InteractionRequest) -> Seq<QuestionModel> {
    let asked = asked_questions(elements_of(member(request.payload, "questions"@)), request.detail@);
    if asked.len() > 0 { asked } else { seq![fallback_question(request.detail@)] }
}

fn offered(items: &Vec<JsonValue>) -> (r: Vec<InputOption>)
    ensures
        r@.map_values(|o: InputOption| option_model(o)) == offered_options(items@),
{
    let mut r: Vec<InputOption> = Vec::new();
    let mut i: usize = 0;
    while i < items.len()
        invariant
            i <= items.len(),
            r@.map_values(|o: InputOption| option_model(o)) == offered_options(items@.take(i as int)),
        decreases items.len() - i,
    {
        let item = &items[i];
        let ghost before = r@.map_values(|o: InputOption| option_model(o));
        proof {
            assert(items@.take(i + 1).drop_last() =~= items@.take(i as int));
            assert(items@.take(i + 1).last() == items@[i as int]);
        }
        match as_text(item.get("label")) {
            Some(label) => {
                let description = match as_text(item.get("description")) {
                    Some(d) => owned(d),
                    None => String::new(),
                };
                let option = InputOption { label: owned(label), description };
                proof { assert(option_model(option) == offered_option(*item).unwrap()); }
                r.push(option);
                assert(r@.map_values(|o: InputOption| option_model(o)) =~= before.push(option_model(option)));
            },
            None => {},
        }
        i = i + 1;
    }
    assert(items@.take(items.len() as int) =~= items@);
    r
}

fn asked(items: &Vec<JsonValue>, detail: &str) -> (r: Vec<InputQuestion>)
    ensures
        r@.map_values(|q: InputQuestion| question_model(q)) == asked_questions(items@, detail@),
{
    let mut r: Vec<InputQuestion> = Vec::new();
    let mut i: usize = 0;
    while i < items.len()
        invariant
            i <= items.len(),
            r@.map_values(|q: InputQuestion| question_model(q)) == asked_questions(items@.take(i as int), detail@),
        decreases items.len() - i,
    {
        let item = &items[i];
        let ghost before = r@.map_values(|q: InputQuestion| question_model(q));
        proof {
            assert(items@.take(i + 1).drop_last() =~= items@.take(i as int));
            assert(items@.take(i + 1).last() == items@[i as int]);
        }
        match as_text(item.get("id")) {
            Some(id) => {
                let header = match as_text(item.get("header")) {
                    Some(h) => if is_blank(h) { None } else { Some(h) },
                    None => None,
                };
                let header = match header {
                    Some(h) => owned(h),
                    None => {
                        let mut h = owned("Question ");
                        append(&mut h, decimal_string((i + 1) as u64).as_str());
                        h
                    },
                };
                let prompt = match as_text(item.get("question")) {
                    Some(p) => if is_blank(p) { None } else { Some(p) },
                    None => None,
                };
                let question = match prompt {
                    Some(p) => owned(p),
                    None => owned(detail),
                };
                let options = match item.get("options") {
                    Some(JsonValue::Array(options)) => offered(options),
                    _ => Vec::new(),
                };
                let secret = match as_flag(item.get("isSecret")) {
                    Some(b) => b,
                    None => false,
                };
                let q = InputQuestion { id: owned(id), header, question, options, secret };
                proof {
                    assert(q.options@.map_values(|o: InputOption| option_model(o))
                        =~= offered_options(elements_of(member(*item, "options"@))));
                    assert(question_model(q) == asked_question(*item, i as nat, detail@).unwrap());
                }
                r.push(q);
                assert(r@.map_values(|q: InputQuestion| question_model(q)) =~= before.push(question_model(q)));
            },
            None => {},
        }
        i = i + 1;
    }
    assert(items@.take(items.len() as int) =~= items@);
    r
}

/// The questions an input request asks, in order; a request that names none asks
/// for a single value.
pub fn input_questions(request: &InteractionRequest) -> (r: Vec<InputQuestion>)
    ensures
        r@.map_values(|q: InputQuestion| question_model(q)) == request_questions(*request),
{
    let mut questions = match request.payload.get("questions") {
        Some(JsonValue::Array(items)) => asked(items, request.detail.as_str()),
        _ => Vec::new(),
    };
    if questions.len() == 0 {
        let question = if is_blank(request.detail.as_str()) {
            owned("Please provide an answer.")
        } else {
            owned(request.detail.as_str())
        };
        let q = InputQuestion {
            id: owned("value"),
            header: owned("Input"),
            question,
            options: Vec::new(),
            secret: false,
        };
        questions.push(q);
        assert(q.options@.map_values(|o: InputOption| option_model(o)) =~= Seq::<(Seq<char>, Seq<char>)>::empty());
        assert(questions@.map_values(|q: InputQuestion| question_model(q)) =~= seq![fallback_question(request.detail@)]);
    }
    questions
}

/// `pairs` with `id` bound to `answer`: a known id keeps its place, a new one comes last.
pub open spec fn upsert(pairs: Seq<(Seq<char>, Seq<char>)>, id: Seq<char>, answer: Seq<char>) -> Seq<(Seq<char>, Seq<char>)> {
    match first_index(pairs.map_values(|p: (Seq<char>, Seq<char>)| p.0), id) {
        Some(i) => pairs.update(i, (id, answer)),
        None => pairs.push((id, answer)),
    }
}

/// The answer given to each question id among the first `n` questions; a later
/// answer to the same id wins.
pub open spec fn response_pairs(questions: Seq<InputQuestion>, answers: Seq<Option<String>>, n: int) -> Seq<(Seq<char>, Seq<char>)>
    decreases n,
{
    if n <= 0 {
        Seq::empty()
    } else {
        let rest = response_pairs(questions, answers, n - 1);
        match answers[n - 1] {
            Some(a) => upsert(rest, questions[n - 1].id@, a@),
            None => rest,
        }
    }
}

/// `{"answers": [answer]}`.
pub open spec fn answer_object(v: JsonValue, answer: Seq<char>) -> bool {
    &&& v matches JsonValue::Object(m)
    &&& m@.len() == 1
    &&& m@[0].0@ == "answers"@
    &&& m@[0].1 matches JsonValue::Array(xs)
    &&& xs@.len() == 1
    &&& xs@[0] matches JsonValue::String(t)
    &&& t@ == answer
}

/// `{"answers": {id: {"answers": [answer]}, ...}}` for the given answers.
pub open spec fn response_document(v: JsonValue, pairs: Seq<(Seq<char>, Seq<char>)>) -> bool {
    &&& v matches JsonValue::Object(top)
    &&& top@.len() == 1
    &&& top@[0].0@ == "answers"@
    &&& top@[0].1 matches JsonValue::Object(entries)
    &&& entries@.len() == pairs.len()
    &&& forall|i: int| 0 <= i < pairs.len() ==> #[trigger] entries@[i].0@ == pairs[i].0 && answer_object(entries@[i].1, pairs[i].1)
}

fn answer_value(answer: &str) -> (r: JsonValue)
    ensures
        answer_object(r, answer@),
{
    JsonValue::Object(vec![(owned("answers"), JsonValue::Array(vec![JsonValue::String(owned(answer))]))])
}

/// The reply to an input request: each answered question's id with its answer.
pub fn input_response(progress: &InputProgress) -> (r: JsonValue)
    ensures
        response_document(r, response_pairs(progress.questions@, progress.answers@, answered_count(*progress))),
{
    let n = if progress.questions.len() < progress.answers.len() { progress.questions.len() } else { progress.answers.len() };
    let mut entries: Vec<(String, JsonValue)> = Vec::new();
    let mut i: usize = 0;
    while i < n
        invariant
            i <= n,
            n == answered_count(*progress),
            n <= progress.questions.len(),
            n <= progress.answers.len(),
            entries@.len() == response_pairs(progress.questions@, progress.answers@, i as int).len(),
            forall|k: int| 0 <= k < entries@.len() ==>
                #[trigger] entries@[k].0@ == response_pairs(progress.questions@, progress.answers@, i as int)[k].0,
            forall|k: int| 0 <= k < entries@.len() ==>
                answer_object(#[trigger] entries@[k].1, response_pairs(progress.questions@, progress.answers@, i as int)[k].1),
        decreases n - i,
    {
        let ghost pairs = response_pairs(progress.questions@, progress.answers@, i as int);
        match &progress.answers[i] {
            Some(a) => {
                let id = progress.questions[i].id.as_str();
                let ghost ids = pairs.map_values(|p: (Seq<char>, Seq<char>)| p.0);
                let mut k: usize = 0;
                let mut found = false;
                while k < entries.len()
                    invariant
                        k <= entries.len(),
                        entries@.len() == pairs.len(),
                        ids == pairs.map_values(|p: (Seq<char>, Seq<char>)| p.0),
                        forall|j: int| 0 <= j < entries@.len() ==> #[trigger] entries@[j].0@ == pairs[j].0,
                        forall|j: int| 0 <= j < entries@.len() ==> answer_object(#[trigger] entries@[j].1, pairs[j].1),
                        !found ==> forall|j: int| 0 <= j < k ==> ids[j] != id@,
                        found ==> k < entries.len() && ids[k as int] == id@ && forall|j: int| 0 <= j < k ==> ids[j] != id@,
                    ensures
                        entries@.len() == pairs.len(),
                        !found ==> forall|j: int| 0 <= j < pairs.len() ==> ids[j] != id@,
                        found ==> k < entries.len() && ids[k as int] == id@ && forall|j: int| 0 <= j < k ==> ids[j] != id@,
                    decreases entries.len() - k,
                {
                    if str_eq(entries[k].0.as_str(), id) {
                        found = true;
                        break;
                    }
                    k = k + 1;
                }
                let ghost entries0 = entries@;
                if found {
                    proof { lemma_first_index_at(ids, id@, k as int); }
                    entries.set(k, (owned(id), answer_value(a.as_str())));
                } else {
                    proof { lemma_first_index_none(ids, id@); }
                    entries.push((owned(id), answer_value(a.as_str())));
                }
                proof {
                    let next = response_pairs(progress.questions@, progress.answers@, i + 1);
                    assert(next == upsert(pairs, id@, a@));
                    assert forall|j: int| 0 <= j < entries@.len() implies
                        #[trigger] entries@[j].0@ == next[j].0 && answer_object(entries@[j].1, next[j].1) by {
                        assert(entries@[j] == entries@[j]);
                        if j < entries0.len() && !(found && j == k) {
                            assert(entries@[j] == entries0[j]);
                            assert(next[j] == pairs[j]);
                        } else {
                            assert(entries@[j].0@ == id@);
                            assert(next[j] == (id@, a@));
                        }
                    }
                }
            },
            None => {},
        }
        i = i + 1;
    }
    let r = JsonValue::Object(vec![(owned("answers"), JsonValue::Object(entries))]);
    proof {
        let pairs = response_pairs(progress.questions@, progress.answers@, n as int);
        assert forall|k: int| 0 <= k < pairs.len() implies
            #[trigger] entries@[k].0@ == pairs[k].0 && answer_object(entries@[k].1, pairs[k].1) by {
            assert(answer_object(entries@[k].1, pairs[k].1));
        }
    }
    r
}

} // verus!
