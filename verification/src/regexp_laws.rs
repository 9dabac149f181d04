//! What the match of a regular expression is to JavaScript code.
use vstd::prelude::*;
use crate::interp::{law_interned_strings_read_back, Answer, Brand, Key, Op, Value, World};
use crate::num;
use crate::proxy::length_of_number;
use crate::proxy_laws::open_data;
use crate::regexp::{
    captures_added, executed, executed_from, group_pairs, group_texts, groups_object, match_object,
    matches_from, named_before, named_span, names_stored, shape_of, span, span_pair, span_value,
    split_by, Shape,
};
use crate::realm::stored;
use crate::string::Units;
use crate::trace::{
    extends, learned, lemma_learned, lemma_stays_learned, lemma_stays_told, question, told,
};

verus! {

/// A string value with these code units.
pub open spec fn says(w: World, v: Value, u: Units) -> bool {
    v is Str && v->Str_0 < w.strings.len() && w.strings[v->Str_0 as int] == u
}

/// Whether a group took part, by the listed spans: the start and the end of each group.
pub open spec fn took_part(l: Seq<Value>, g: int) -> bool {
    l[2 * g] is Num && l[2 * g + 1] is Num
}

/// Where a group starts.
pub open spec fn start_of(l: Seq<Value>, g: int) -> int {
    num::integer_part(l[2 * g]->Num_0)
}

/// Where a group ends.
pub open spec fn end_of(l: Seq<Value>, g: int) -> int {
    num::integer_part(l[2 * g + 1]->Num_0)
}

/// A matcher's answer: the whole match took part, and every span of a group that did lies in the
/// string.
pub open spec fn match_in(s: Units, l: Seq<Value>, groups: int) -> bool {
    &&& groups >= 0
    &&& l.len() == 2 * groups + 2
    &&& took_part(l, 0)
    &&& forall|g: int|
        0 <= g <= groups && took_part(l, g) ==> {
            &&& num::finite(l[2 * g]->Num_0)
            &&& num::finite(l[2 * g + 1]->Num_0)
            &&& 0 <= #[trigger] start_of(l, g) <= end_of(l, g) <= s.len()
        }
}

/// What a group captured: the text between its start and its end, or undefined where it took no
/// part.
pub open spec fn captured(w: World, s: Units, l: Seq<Value>, g: int, v: Value) -> bool {
    if took_part(l, g) {
        says(w, v, s.subrange(start_of(l, g), end_of(l, g)))
    } else {
        v == Value::Undefined
    }
}

proof fn lemma_span(s: Units, l: Seq<Value>, groups: int, g: int)
    requires
        s.len() <= u64::MAX,
        match_in(s, l, groups),
        0 <= g <= groups,
    ensures
        took_part(l, g) ==> span(l, g) == Some((start_of(l, g), end_of(l, g))),
        !took_part(l, g) ==> span(l, g) is None,
{
    if took_part(l, g) {
        assert(0 <= start_of(l, g) <= end_of(l, g) <= s.len());
    }
}

#[verifier::spinoff_prover]
#[verifier::rlimit(60)]
proof fn lemma_span_value(w: World, s: Units, l: Seq<Value>, groups: int, g: int)
    requires
        s.len() <= u64::MAX,
        w.strings.len() < u64::MAX,
        match_in(s, l, groups),
        0 <= g <= groups,
    ensures
        ({
            let (w1, v) = span_value(w, s, span(l, g));
            &&& captured(w1, s, l, g, v)
            &&& extends(w, w1)
            &&& w1.asked == w.asked
            &&& w1.strings.len() <= w.strings.len() + 1
        }),
{
    lemma_span(s, l, groups, g);
    if took_part(l, g) {
        let (a, b) = (start_of(l, g), end_of(l, g));
        assert(crate::string::between(s, a, b) =~= s.subrange(a, b));
        let u = s.subrange(a, b);
        law_interned_strings_read_back(w, u, 0);
        lemma_intern(w, u);
    }
}

pub proof fn lemma_intern(w: World, u: Units)
    requires
        w.strings.len() < u64::MAX,
    ensures
        extends(w, w.intern(u).0),
        w.intern(u).1 < w.intern(u).0.strings.len(),
        w.intern(u).0.strings.len() <= w.strings.len() + 1,
        says(w.intern(u).0, Value::Str(w.intern(u).1), u),
{
    law_interned_strings_read_back(w, u, 0);
    lemma_place(w.strings, u, 0);
}

proof fn lemma_place(t: Seq<Seq<u16>>, u: Seq<u16>, i: int)
    requires
        0 <= i <= t.len(),
    ensures
        i <= crate::interp::place_from(t, u, i) <= t.len(),
        crate::interp::place_from(t, u, i) < t.len() ==> t[crate::interp::place_from(t, u, i)] == u,
    decreases t.len() - i,
{
    if i < t.len() {
        lemma_place(t, u, i + 1);
    }
}

proof fn lemma_captured_kept(a: World, b: World, s: Units, l: Seq<Value>, g: int, v: Value)
    requires
        extends(a, b),
        captured(a, s, l, g, v),
    ensures
        captured(b, s, l, g, v),
{
}

#[verifier::spinoff_prover]
#[verifier::rlimit(60)]
proof fn lemma_group_texts(
    w: World,
    s: Units,
    l: Seq<Value>,
    g: int,
    groups: int,
    out: Seq<Value>,
)
    requires
        s.len() <= u64::MAX,
        0 <= g <= groups + 1,
        w.strings.len() + (groups + 1 - g) < u64::MAX,
        match_in(s, l, groups),
    ensures
        ({
            let (w1, r) = group_texts(w, s, l, g, groups, out);
            &&& extends(w, w1)
            &&& w1.asked == w.asked
            &&& w1.strings.len() <= w.strings.len() + (groups + 1 - g)
            &&& r.len() == out.len() + (groups + 1 - g)
            &&& forall|k: int| 0 <= k < out.len() ==> r[k] == out[k]
            &&& forall|k: int|
                out.len() <= k < r.len() ==> captured(
                    w1,
                    s,
                    l,
                    k - out.len() + g,
                    #[trigger] r[k],
                )
        }),
    decreases groups + 1 - g,
{
    if g <= groups {
        let (w1, v) = span_value(w, s, span(l, g));
        lemma_span_value(w, s, l, groups, g);
        lemma_group_texts(w1, s, l, g + 1, groups, out.push(v));
        let (w2, r) = group_texts(w, s, l, g, groups, out);
        assert(r[out.len() as int] == out.push(v)[out.len() as int]);
        lemma_captured_kept(w1, w2, s, l, g, v);
        assert forall|k: int| 0 <= k < out.len() implies r[k] == out[k] by {
            assert(r[k] == out.push(v)[k]);
        }
    }
}

/// Where a match is looked for: at `lastIndex` where the expression is global or sticky, else at the
/// start.
pub open spec fn search_start(shape: Seq<Value>, last: u64) -> int {
    if shape[0] == Value::Bool(true) || shape[1] == Value::Bool(true) {
        length_of_number(last)
    } else {
        0
    }
}

/// The answers behind a call of `exec` on a regular expression with a string: its `lastIndex`, its
/// program, and what the matcher found.
pub open spec fn exec_answers(w: World, last: u64, shape: Seq<Value>, l: Seq<Value>) -> bool {
    let n = w.asked.len() as int;
    &&& n + 3 < w.answers.len()
    &&& w.answers[n] == Answer::Value(Value::Bool(true))
    &&& w.answers[n + 1] == Answer::Value(Value::Num(last))
    &&& w.answers[n + 2] == Answer::List(shape)
    &&& shape.len() >= 5
    &&& shape[4] is Num
    &&& w.answers[n + 3] == Answer::List(l)
}

/// The questions that go with them.
pub open spec fn exec_questions(w: World, this: Value, input: u64, start: int) -> World {
    World {
        asked: w.asked.push(question(Op::HasBrand(this, Brand::RegExpData), Seq::empty())).push(
            question(Op::Get(this, Key::Name("lastIndex")), Seq::empty()),
        ).push(question(Op::RegExpShape(this), Seq::empty())).push(
            question(Op::MatchAt(this, Value::Str(input), start as u64), Seq::empty()),
        ),
        ..w
    }
}

#[verifier::spinoff_prover]
#[verifier::rlimit(60)]
proof fn lemma_executed(
    w: World,
    this: Value,
    input: u64,
    last: u64,
    shape: Seq<Value>,
    l: Seq<Value>,
)
    requires
        this.object(),
        exec_answers(w, last, shape, l),
        search_start(shape, last) <= w.units(input).len(),
    ensures
        ({
            let w3 = World { asked: exec_questions(w, this, input, 0).asked.drop_last(), ..w };
            &&& executed(w, this, seq![Value::Str(input)]) == executed_from(
                w3,
                this,
                input,
                shape_of(shape)->0,
                length_of_number(last) as u64,
            )
            &&& w3.list(Op::MatchAt(this, Value::Str(input), search_start(shape, last) as u64)) == (
                exec_questions(w, this, input, search_start(shape, last)),
                Ok::<Seq<Value>, Value>(l),
            )
        }),
{
    let (w1, b) = w.yes(Op::HasBrand(this, Brand::RegExpData));
    let (w2, v) = w1.get(this, Key::Name("lastIndex"));
    let (w3, sh) = w2.list(Op::RegExpShape(this));
    let x3 = World { asked: exec_questions(w, this, input, 0).asked.drop_last(), ..w };
    assert(x3.asked =~= w3.asked);
    assert(x3 == w3);
    assert(seq![Value::Str(input)][0] == Value::Str(input));
    let (w4, r) = w3.list(
        Op::MatchAt(this, Value::Str(input), search_start(shape, last) as u64),
    );
    assert(w4.asked =~= exec_questions(w, this, input, search_start(shape, last)).asked);
}

/// No match is null; a global or sticky expression starts over at 0.
pub proof fn law_no_match_is_null(
    w: World,
    this: Value,
    input: u64,
    last: u64,
    shape: Seq<Value>,
    l: Seq<Value>,
)
    requires
        this.object(),
        exec_answers(w, last, shape, l),
        search_start(shape, last) <= w.units(input).len(),
        l.len() == 0,
    ensures
        ({
            let (w1, r) = executed(w, this, seq![Value::Str(input)]);
            let w4 = exec_questions(w, this, input, search_start(shape, last));
            let steered = shape[0] == Value::Bool(true) || shape[1] == Value::Bool(true);
            &&& extends(w4, w1)
            &&& r matches Ok(v) ==> v == Value::Null
            &&& !steered ==> r is Ok && w1 == w4
            &&& steered ==> w1.asked == w4.asked.push(
                question(
                    Op::Put(this, Key::Name("lastIndex"), Value::Num(num::number(0))),
                    Seq::empty(),
                ),
            )
            &&& steered && w4.asked.len() < w.answers.len() && w.answers[w4.asked.len() as int]
                is Value ==> r is Ok
        }),
{
    lemma_executed(w, this, input, last, shape, l);
    num::lemma_magnitude_nonneg(last);
}

/// A property of the result is stored as an ordinary one.
pub open spec fn has_stored(a: World, b: World, o: Value, k: Key, v: Value) -> bool {
    told(a, b, Op::StoreProperty(o, k, open_data(v)), Seq::empty())
}

pub proof fn lemma_stored(a: World, w: World, d: World, o: Value, k: Key, v: Value)
    requires
        extends(a, w),
        extends(stored(w, o, k, v), d),
        w.asked.len() < w.answers.len(),
    ensures
        has_stored(a, d, o, k, v),
{
    let op = Op::StoreProperty(o, k, open_data(v));
    assert(stored(w, o, k, v) == w.ask(op, Seq::empty()).0);
    lemma_learned(w, op, Seq::empty());
    lemma_stays_told(a, w, stored(w, o, k, v), d, op, Seq::empty());
}

proof fn lemma_span_value_extends(w: World, s: Units, p: Option<(int, int)>)
    ensures
        extends(w, span_value(w, s, p).0),
        span_value(w, s, p).0.asked == w.asked,
        span_value(w, s, p).0.strings.len() <= w.strings.len() + 1,
{
}

#[verifier::spinoff_prover]
#[verifier::rlimit(60)]
proof fn lemma_names_stored_extends(
    w: World,
    obj: Value,
    s: Units,
    names: Seq<(Value, u64)>,
    l: Seq<Value>,
    k: int,
    as_pairs: bool,
)
    ensures
        extends(w, names_stored(w, obj, s, names, l, k, as_pairs)),
    decreases names.len() - k,
{
    if 0 <= k < names.len() {
        if named_before(names, k) {
            lemma_names_stored_extends(w, obj, s, names, l, k + 1, as_pairs);
        } else {
            let p = named_span(names, names[k].0, l, 0);
            let (w1, v) = if as_pairs {
                span_pair(w, p)
            } else {
                span_value(w, s, p)
            };
            lemma_span_value_extends(w, s, p);
            let w2 = stored(w1, obj, Key::Of(names[k].0), v);
            assert(w2 == w1.plain(
                Op::StoreProperty(obj, Key::Of(names[k].0), crate::realm::plain_property(v)),
                Seq::empty(),
            ).0);
            lemma_names_stored_extends(w2, obj, s, names, l, k + 1, as_pairs);
        }
    }
}

proof fn lemma_groups_extends(
    w: World,
    s: Units,
    names: Seq<(Value, u64)>,
    l: Seq<Value>,
    as_pairs: bool,
)
    ensures
        extends(w, groups_object(w, s, names, l, as_pairs).0),
{
    let (w1, obj) = w.plain(Op::NewWithPrototype(Value::Null), Seq::empty());
    lemma_names_stored_extends(w1, obj, s, names, l, 0, as_pairs);
}

proof fn lemma_group_pairs_extends(w: World, l: Seq<Value>, g: int, groups: int, out: Seq<Value>)
    ensures
        extends(w, group_pairs(w, l, g, groups, out).0),
    decreases groups + 1 - g,
{
    if g <= groups {
        let (w1, v) = span_pair(w, span(l, g));
        lemma_group_pairs_extends(w1, l, g + 1, groups, out.push(v));
    }
}

/// The array for a match: element 0 is the text of the whole match, element `g` what group `g`
/// captured; with the index, the input and the groups as properties.
pub open spec fn describes_match(
    a: World,
    b: World,
    m: Value,
    input: u64,
    s: Units,
    l: Seq<Value>,
    groups: int,
    items: Seq<Value>,
) -> bool {
    &&& items.len() == groups + 1
    &&& forall|g: int| 0 <= g <= groups ==> captured(b, s, l, g, #[trigger] items[g])
    &&& learned(a, b, Op::NewArray, items, Answer::Value(m))
    &&& has_stored(a, b, m, Key::Name("index"), Value::Num(num::number(start_of(l, 0))))
    &&& has_stored(a, b, m, Key::Name("input"), Value::Str(input))
}

#[verifier::spinoff_prover]
#[verifier::rlimit(60)]
proof fn lemma_match_object(w: World, input: u64, shape: Shape, l: Seq<Value>, s: Units)
    requires
        s == w.units(input),
        s.len() <= num::COUNT_LIMIT,
        w.strings.len() + shape.groups + 2 < u64::MAX,
        match_in(s, l, shape.groups as int),
        ({
            let (w1, m) = match_object(w, input, shape, l, (start_of(l, 0), end_of(l, 0)));
            !w1.halted() && m.object()
        }),
    ensures
        ({
            let (w1, m) = match_object(w, input, shape, l, (start_of(l, 0), end_of(l, 0)));
            &&& extends(w, w1)
            &&& exists|items: Seq<Value>| #[trigger]
                describes_match(w, w1, m, input, s, l, shape.groups as int, items)
        }),
{
    let n = shape.groups as int;
    let at = (start_of(l, 0), end_of(l, 0));
    lemma_span(s, l, n, 0);
    lemma_span_value(w, s, l, n, 0);
    let (w1, first) = span_value(w, s, Some(at));
    lemma_group_texts(w1, s, l, 1, n, seq![first]);
    let (w2, items) = group_texts(w1, s, l, 1, n, seq![first]);
    let (w3, result) = w2.plain(Op::NewArray, items);
    lemma_groups_extends(w3, s, shape.names, l, false);
    let (w4, groups) = groups_object(w3, s, shape.names, l, false);
    let (p5, pairs) = group_pairs(w4, l, 0, n, Seq::empty());
    lemma_group_pairs_extends(w4, l, 0, n, Seq::empty());
    let (q5, arr) = p5.plain(Op::NewArray, pairs);
    let (r5, named) = groups_object(q5, s, shape.names, l, true);
    lemma_groups_extends(q5, s, shape.names, l, true);
    let (w5, indices) = if shape.indices {
        (stored(r5, arr, Key::Name("groups"), named), arr)
    } else {
        (w4, Value::Undefined)
    };
    assert(extends(w4, w5));
    let w6 = stored(w5, result, Key::Name("index"), Value::Num(num::position(at.0)));
    let w7 = stored(w6, result, Key::Name("input"), Value::Str(input));
    let w8 = stored(w7, result, Key::Name("groups"), groups);
    let (w9, m) = match_object(w, input, shape, l, at);
    assert(extends(w8, w9));
    assert(m == result);
    assert(extends(w, w2));
    assert(extends(w3, w9));
    lemma_learned(w2, Op::NewArray, items);
    lemma_stays_learned(w, w2, w3, w9, Op::NewArray, items, Answer::Value(m));
    lemma_stored(w, w5, w9, m, Key::Name("index"), Value::Num(num::position(at.0)));
    lemma_stored(w, w6, w9, m, Key::Name("input"), Value::Str(input));
    assert(num::position(at.0) == num::number(at.0));
    assert forall|g: int| 0 <= g <= n implies captured(w9, s, l, g, #[trigger] items[g]) by {
        if g == 0 {
            assert(items[0] == seq![first][0]);
            lemma_captured_kept(w1, w9, s, l, 0, first);
        } else {
            assert(captured(w2, s, l, g - 1 + 1, items[g]));
            lemma_captured_kept(w2, w9, s, l, g, items[g]);
        }
    }
    assert(describes_match(w, w9, m, input, s, l, n, items));
}

/// `exec` gives an array of one element more than the expression has groups: the text of the whole
/// match, and for each group the text between the start and the end that the matcher found for it,
/// or undefined where it took no part. Its index is where the match starts. A global or sticky
/// expression goes on behind the match.
#[verifier::spinoff_prover]
#[verifier::rlimit(60)]
pub proof fn law_exec_gives_every_group(
    w: World,
    this: Value,
    input: u64,
    last: u64,
    shape: Seq<Value>,
    l: Seq<Value>,
    groups: int,
)
    requires
        this.object(),
        exec_answers(w, last, shape, l),
        search_start(shape, last) <= w.units(input).len() <= num::COUNT_LIMIT,
        shape[4] == Value::Num(num::number(groups)),
        0 <= groups <= num::COUNT_LIMIT,
        w.strings.len() + groups + 2 < u64::MAX,
        match_in(w.units(input), l, groups),
        executed(w, this, seq![Value::Str(input)]).1 is Ok,
        executed(w, this, seq![Value::Str(input)]).1->Ok_0.object(),
        !executed(w, this, seq![Value::Str(input)]).0.halted(),
    ensures
        ({
            let (w1, r) = executed(w, this, seq![Value::Str(input)]);
            let w4 = exec_questions(w, this, input, search_start(shape, last));
            &&& extends(w4, w1)
            &&& exists|items: Seq<Value>| #[trigger]
                describes_match(w, w1, r->Ok_0, input, w.units(input), l, groups, items)
            &&& shape[0] == Value::Bool(true) || shape[1] == Value::Bool(true) ==> told(
                w,
                w1,
                Op::Put(this, Key::Name("lastIndex"), Value::Num(num::number(end_of(l, 0)))),
                Seq::empty(),
            )
        }),
{
    let s = w.units(input);
    lemma_executed(w, this, input, last, shape, l);
    num::law_numbers_hold_their_integer(groups);
    let sh = shape_of(shape)->0;
    assert(sh.groups == groups);
    lemma_span(s, l, groups, 0);
    let at = (start_of(l, 0), end_of(l, 0));
    let w4 = exec_questions(w, this, input, search_start(shape, last));
    assert(extends(w, w4));
    let put = Op::Put(this, Key::Name("lastIndex"), Value::Num(num::position(at.1)));
    let steered = sh.global || sh.sticky;
    let w5 = if steered {
        w4.value(put, Seq::empty()).0
    } else {
        w4
    };
    let (w6, _) = w5.plain(Op::RecordMatch(this, Value::Str(input)), l);
    let (w7, m) = match_object(w6, input, sh, l, at);
    let (w1, r) = executed(w, this, seq![Value::Str(input)]);
    assert(w7 == w1 && r->Ok_0 == m);
    lemma_match_object(w6, input, sh, l, s);
    let items = choose|items: Seq<Value>| #[trigger]
        describes_match(w6, w7, m, input, s, l, groups, items);
    lemma_stays_learned(w, w6, w7, w7, Op::NewArray, items, Answer::Value(m));
    lemma_stays_told(
        w,
        w6,
        w7,
        w7,
        Op::StoreProperty(
            m,
            Key::Name("index"),
            open_data(Value::Num(num::number(start_of(l, 0)))),
        ),
        Seq::empty(),
    );
    lemma_stays_told(
        w,
        w6,
        w7,
        w7,
        Op::StoreProperty(m, Key::Name("input"), open_data(Value::Str(input))),
        Seq::empty(),
    );
    assert(describes_match(w, w1, m, input, s, l, groups, items));
    if steered {
        lemma_learned(w4, put, Seq::empty());
        lemma_stays_told(w, w4, w5, w1, put, Seq::empty());
        assert(num::position(at.1) == num::number(at.1));
    }
}

// All matches

/// Where the search for the next match starts: behind the match, or one character behind an empty one.
/// A character is a pair of surrogates where the expression goes by code points.
pub open spec fn goes_on_at(s: Units, start: int, end: int, unicode: bool) -> int {
    if start < end {
        end
    } else if unicode && end + 1 < s.len() && 0xd800 <= s[end] <= 0xdbff && 0xdc00 <= s[end + 1]
        <= 0xdfff {
        end + 2
    } else {
        end + 1
    }
}

/// All matches are found from left to right: what the matcher finds at a position is listed, and the
/// search goes on behind it; where it finds nothing, and behind the end of the text, it is over.
pub proof fn law_matches_are_found_left_to_right(
    w: World,
    rx: Value,
    input: u64,
    unicode: bool,
    pos: int,
    limit: int,
    out: Seq<Seq<Value>>,
    l: Seq<Value>,
    groups: int,
)
    requires
        0 <= pos <= w.units(input).len() <= num::COUNT_LIMIT,
        w.asked.len() < w.answers.len(),
        w.answers[w.asked.len() as int] == Answer::List(l),
        l.len() > 0 ==> match_in(w.units(input), l, groups),
        out.len() < limit,
    ensures
        ({
            let s = w.units(input);
            let w1 = World {
                asked: w.asked.push(
                    question(Op::MatchAt(rx, Value::Str(input), pos as u64), Seq::empty()),
                ),
                ..w
            };
            let r = matches_from(w, rx, input, unicode, pos, limit, out);
            &&& l.len() == 0 ==> r == (w1, Ok::<Seq<Seq<Value>>, Value>(out))
            &&& l.len() > 0 ==> r == matches_from(
                w1,
                rx,
                input,
                unicode,
                goes_on_at(s, start_of(l, 0), end_of(l, 0), unicode),
                limit,
                out.push(l),
            )
        }),
        forall|p: int|
            p > w.units(input).len() ==> (#[trigger] matches_from(
                w,
                rx,
                input,
                unicode,
                p,
                limit,
                out,
            )).1 == Ok::<Seq<Seq<Value>>, Value>(out),
{
    let s = w.units(input);
    if l.len() > 0 {
        lemma_span(s, l, groups, 0);
        assert(0 <= start_of(l, 0) <= end_of(l, 0) <= s.len());
    }
}

// Splitting

/// A match that is not empty, behind a position.
pub open spec fn cuts(s: Units, l: Seq<Value>, last: int) -> bool {
    match_in(s, l, 0) && last <= start_of(l, 0) < end_of(l, 0)
}

/// The end of the match before the `k`th; the start of the text before the first.
pub open spec fn cut_before(found: Seq<Seq<Value>>, k: int) -> int {
    if k <= 0 {
        0
    } else {
        end_of(found[k - 1], 0)
    }
}

#[verifier::spinoff_prover]
#[verifier::rlimit(60)]
proof fn lemma_split(w: World, s: Units, found: Seq<Seq<Value>>, limit: int, k: int, out: Seq<Value>)
    requires
        s.len() <= num::COUNT_LIMIT,
        0 <= k <= found.len(),
        out.len() == k,
        found.len() + 1 < limit,
        w.strings.len() + (found.len() - k) + 2 < u64::MAX,
        forall|j: int| 0 <= j < found.len() ==> cuts(s, #[trigger] found[j], cut_before(found, j)),
        0 <= cut_before(found, k) <= s.len(),
    ensures
        ({
            let (w1, r) = split_by(w, s, found, 0, limit, k, cut_before(found, k), out);
            &&& extends(w, w1)
            &&& w1.asked == w.asked
            &&& r.len() == found.len() + 1
            &&& forall|j: int| 0 <= j < k ==> r[j] == out[j]
            &&& forall|j: int|
                k <= j < found.len() ==> says(
                    w1,
                    #[trigger] r[j],
                    s.subrange(cut_before(found, j), start_of(found[j], 0)),
                )
            &&& says(
                w1,
                r[found.len() as int],
                s.subrange(cut_before(found, found.len() as int), s.len() as int),
            )
        }),
    decreases found.len() - k,
{
    let last = cut_before(found, k);
    if k < found.len() {
        let l = found[k];
        assert(cuts(s, l, last));
        lemma_span(s, l, 0, 0);
        let (a, b) = (start_of(l, 0), end_of(l, 0));
        assert(0 <= a <= b <= s.len());
        assert(crate::string::between(s, last, a) =~= s.subrange(last, a));
        lemma_intern(w, s.subrange(last, a));
        let (w1, v) = span_value(w, s, Some((last, a)));
        let more = out.push(v);
        assert(captures_added(w1, s, l, 0, limit, 1, more) == (w1, more));
        assert(cut_before(found, k + 1) == b);
        lemma_split(w1, s, found, limit, k + 1, more);
        let (w2, r) = split_by(w, s, found, 0, limit, k, last, out);
        assert((w2, r) == split_by(w1, s, found, 0, limit, k + 1, b, more));
        assert(r[k] == more[k]);
        assert forall|j: int| 0 <= j < k implies r[j] == out[j] by {
            assert(r[j] == more[j]);
        }
    } else {
        assert(crate::string::between(s, last, s.len() as int) =~= s.subrange(
            last,
            s.len() as int,
        ));
        lemma_intern(w, s.subrange(last, s.len() as int));
    }
}

/// A split by an expression without groups, at matches that are not empty, gives what lies between
/// them: the text before the first match, between each and the next, and behind the last.
pub proof fn law_split_gives_what_lies_between(
    w: World,
    s: Units,
    found: Seq<Seq<Value>>,
    limit: int,
)
    requires
        s.len() <= num::COUNT_LIMIT,
        found.len() + 1 < limit,
        w.strings.len() + found.len() + 2 < u64::MAX,
        forall|j: int| 0 <= j < found.len() ==> cuts(s, #[trigger] found[j], cut_before(found, j)),
    ensures
        ({
            let (w1, r) = split_by(w, s, found, 0, limit, 0, 0, Seq::empty());
            &&& r.len() == found.len() + 1
            &&& forall|j: int|
                0 <= j < found.len() ==> says(
                    w1,
                    #[trigger] r[j],
                    s.subrange(cut_before(found, j), start_of(found[j], 0)),
                )
            &&& says(
                w1,
                r[found.len() as int],
                s.subrange(cut_before(found, found.len() as int), s.len() as int),
            )
        }),
{
    lemma_split(w, s, found, limit, 0, Seq::empty());
}

/// Between the pieces of a split stand the captures of each group of the match, from the first group
/// on.
#[verifier::spinoff_prover]
#[verifier::rlimit(60)]
pub proof fn law_captures_stand_between_the_pieces(
    w: World,
    s: Units,
    l: Seq<Value>,
    groups: int,
    limit: int,
    g: int,
    out: Seq<Value>,
)
    requires
        s.len() <= u64::MAX,
        1 <= g <= groups + 1,
        out.len() + (groups + 1 - g) <= limit,
        w.strings.len() + (groups + 1 - g) < u64::MAX,
        match_in(s, l, groups),
    ensures
        ({
            let (w1, r) = captures_added(w, s, l, groups, limit, g, out);
            &&& extends(w, w1)
            &&& r.len() == out.len() + (groups + 1 - g)
            &&& forall|k: int| 0 <= k < out.len() ==> r[k] == out[k]
            &&& forall|k: int|
                out.len() <= k < r.len() ==> captured(
                    w1,
                    s,
                    l,
                    k - out.len() + g,
                    #[trigger] r[k],
                )
        }),
    decreases groups + 1 - g,
{
    if g <= groups {
        let (w1, v) = span_value(w, s, span(l, g));
        lemma_span_value(w, s, l, groups, g);
        law_captures_stand_between_the_pieces(w1, s, l, groups, limit, g + 1, out.push(v));
        let (w2, r) = captures_added(w, s, l, groups, limit, g, out);
        assert(r[out.len() as int] == out.push(v)[out.len() as int]);
        lemma_captured_kept(w1, w2, s, l, g, v);
        assert forall|k: int| 0 <= k < out.len() implies r[k] == out[k] by {
            assert(r[k] == out.push(v)[k]);
        }
    }
}

// Names

/// Each name of a group is a property of the groups object: it holds what the group of that name
/// captured.
#[verifier::spinoff_prover]
#[verifier::rlimit(60)]
proof fn lemma_names(
    a: World,
    w: World,
    obj: Value,
    s: Units,
    names: Seq<(Value, u64)>,
    l: Seq<Value>,
    groups: int,
    k: int,
)
    requires
        extends(a, w),
        0 <= k <= names.len(),
        s.len() <= u64::MAX,
        w.strings.len() + (names.len() - k) < u64::MAX,
        match_in(s, l, groups),
        forall|i: int, j: int| 0 <= i < j < names.len() ==> names[i].0 != names[j].0,
        forall|i: int| 0 <= i < names.len() ==> (#[trigger] names[i]).1 <= groups,
        !names_stored(w, obj, s, names, l, k, false).halted(),
    ensures
        ({
            let w1 = names_stored(w, obj, s, names, l, k, false);
            forall|i: int|
                k <= i < names.len() ==> exists|v: Value|
                    {
                        &&& #[trigger] has_stored(a, w1, obj, Key::Of((#[trigger] names[i]).0), v)
                        &&& captured(w1, s, l, names[i].1 as int, v)
                    }
        }),
    decreases names.len() - k,
{
    if k < names.len() {
        let wf = names_stored(w, obj, s, names, l, k, false);
        assert(!named_before(names, k));
        let p = named_span(names, names[k].0, l, 0);
        lemma_named_span(names, k, l, 0);
        let (w1, v) = span_value(w, s, p);
        lemma_span_value(w, s, l, groups, names[k].1 as int);
        let w2 = stored(w1, obj, Key::Of(names[k].0), v);
        lemma_names_stored_extends(w2, obj, s, names, l, k + 1, false);
        lemma_stored(a, w1, wf, obj, Key::Of(names[k].0), v);
        lemma_captured_kept(w1, wf, s, l, names[k].1 as int, v);
        lemma_names(a, w2, obj, s, names, l, groups, k + 1);
        assert forall|i: int| k <= i < names.len() implies exists|v: Value|
            {
                &&& #[trigger] has_stored(a, wf, obj, Key::Of((#[trigger] names[i]).0), v)
                &&& captured(wf, s, l, names[i].1 as int, v)
            } by {
            if i == k {
                assert(has_stored(a, wf, obj, Key::Of(names[i].0), v));
            }
        }
    }
}

proof fn lemma_named_span(names: Seq<(Value, u64)>, k: int, l: Seq<Value>, j: int)
    requires
        0 <= j <= k < names.len(),
        forall|a: int, b: int| 0 <= a < b < names.len() ==> names[a].0 != names[b].0,
    ensures
        named_span(names, names[k].0, l, j) == span(l, names[k].1 as int),
    decreases k - j,
{
    if j < k {
        lemma_named_span(names, k, l, j + 1);
    } else if span(l, names[k].1 as int) is None {
        lemma_no_name(names, k, l, k + 1);
    }
}

proof fn lemma_no_name(names: Seq<(Value, u64)>, k: int, l: Seq<Value>, j: int)
    requires
        0 <= k < j <= names.len(),
        forall|a: int, b: int| 0 <= a < b < names.len() ==> names[a].0 != names[b].0,
    ensures
        named_span(names, names[k].0, l, j) is None,
    decreases names.len() - j,
{
    if j < names.len() {
        lemma_no_name(names, k, l, j + 1);
    }
}

/// The groups of a match whose groups have names of their own are an object without a prototype that
/// holds, under each name, what the group of that name captured; without names there is none.
#[verifier::spinoff_prover]
#[verifier::rlimit(60)]
pub proof fn law_named_groups_hold_their_captures(
    w: World,
    s: Units,
    names: Seq<(Value, u64)>,
    l: Seq<Value>,
    groups: int,
)
    requires
        s.len() <= u64::MAX,
        w.strings.len() + names.len() < u64::MAX,
        match_in(s, l, groups),
        forall|i: int, j: int| 0 <= i < j < names.len() ==> names[i].0 != names[j].0,
        forall|i: int| 0 <= i < names.len() ==> (#[trigger] names[i]).1 <= groups,
        !groups_object(w, s, names, l, false).0.halted(),
    ensures
        ({
            let (w1, o) = groups_object(w, s, names, l, false);
            &&& names.len() == 0 ==> o == Value::Undefined && w1 == w
            &&& names.len() > 0 ==> told(w, w1, Op::NewWithPrototype(Value::Null), Seq::empty())
            &&& forall|i: int|
                0 <= i < names.len() ==> exists|v: Value|
                    {
                        &&& #[trigger] has_stored(w, w1, o, Key::Of((#[trigger] names[i]).0), v)
                        &&& captured(w1, s, l, names[i].1 as int, v)
                    }
        }),
{
    if names.len() > 0 {
        let op = Op::NewWithPrototype(Value::Null);
        let (w1, o) = w.plain(op, Seq::empty());
        let wf = names_stored(w1, o, s, names, l, 0, false);
        lemma_names_stored_extends(w1, o, s, names, l, 0, false);
        lemma_learned(w, op, Seq::empty());
        lemma_stays_told(w, w, w1, wf, op, Seq::empty());
        lemma_names(w, w1, o, s, names, l, groups, 0);
    }
}

} // verus!
