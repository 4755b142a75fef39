//! Properties of the parser stated over the whole of its input space.
use vstd::prelude::*;
use crate::grammar::{
    at_lines, badbox_at, badness_at, box_head, digit_end, generic_at, has_at, is_digit, is_word,
    word_end,
    kw_end, kw_tail, missing_at, place_at, size_at, space_end, text_end, type_end, until,
    extra_end, Keyword, PlaceSpan,
};
use crate::parser::{badbox_record, bare_error_record, warning_diagnostic, classify, continuation, parse_from, parse_spec, step};
use crate::report::{
    component_of, count_where, extend_field, is_missing_citation, is_missing_reference, is_warning, extend_view, key_index, lemma_key_index, lookup, merge_name,
    record_of, BuildReport, FieldsView, MessageView,
};

verus! {

/// A text that starts with a non-empty `lit` starts with its first character.
proof fn lemma_first_char(s: Seq<char>, lit: Seq<char>)
    requires
        lit.len() > 0,
        has_at(s, 0, lit),
    ensures
        s.len() > 0,
        s[0] == lit[0],
{
    assert(s.subrange(0, lit.len() as int)[0] == s[0]);
}

/// No emitter name starts a line whose first character is none of theirs.
proof fn lemma_no_emitter(s: Seq<char>)
    requires
        s.len() > 0,
        s[0] != 'L' && s[0] != 'p' && s[0] != 'P' && s[0] != 'C',
    ensures
        type_end(s, 0) is None,
        forall|k: Keyword| generic_at(s, 0, k) is None,
{
    reveal_strlit("LaTeX");
    reveal_strlit("pdfTeX");
    reveal_strlit("Package");
    reveal_strlit("Class");
    if has_at(s, 0, "LaTeX"@) {
        lemma_first_char(s, "LaTeX"@);
    }
    if has_at(s, 0, "pdfTeX"@) {
        lemma_first_char(s, "pdfTeX"@);
    }
    if has_at(s, 0, "Package"@) {
        lemma_first_char(s, "Package"@);
    }
    if has_at(s, 0, "Class"@) {
        lemma_first_char(s, "Class"@);
    }
}

/// No badbox starts with a character other than `O` or `U`.
proof fn lemma_no_badbox(s: Seq<char>)
    requires
        s.len() > 0,
        s[0] != 'O' && s[0] != 'U',
    ensures
        badbox_at(s) is None,
{
    reveal_strlit("Over");
    reveal_strlit("Under");
    if has_at(s, 0, "Over"@) {
        lemma_first_char(s, "Over"@);
    }
    if has_at(s, 0, "Under"@) {
        lemma_first_char(s, "Under"@);
    }
    assert(box_head(s) is None);
}

/// A log of one line is one step.
proof fn lemma_parse_one(ms: Seq<MessageView>, s: Seq<char>)
    ensures
        parse_from(ms, seq![s]) == step(ms, s),
{
    assert(seq![s].drop_last() =~= Seq::<Seq<char>>::empty());
    assert(parse_from(ms, Seq::<Seq<char>>::empty()) == ms);
    assert(seq![s].last() == s);
}

/// Parsing is a function of the lines alone: two reports of the same lines,
/// built from scratch, agree in every diagnostic and every counter.
pub proof fn lemma_parse_deterministic(lines: Seq<Seq<char>>, a: BuildReport, b: BuildReport)
    requires
        a.wf(),
        b.wf(),
        a.diagnostics() == parse_spec(lines),
        b.diagnostics() == parse_spec(lines),
    ensures
        a.diagnostics() == b.diagnostics(),
        a.errors == b.errors,
        a.warnings == b.warnings,
        a.badboxes == b.badboxes,
        a.info == b.info,
        a.missing_references == b.missing_references,
        a.missing_citations == b.missing_citations,
{
}

/// A line `! message` that names no emitter yields exactly one error, whose
/// message is the text after `! ` (up to the end of the line).
pub proof fn lemma_bare_error(s: Seq<char>)
    requires
        has_at(s, 0, "! "@),
        generic_at(s, 2, Keyword::Error) is None,
    ensures
        classify(s) == Some(MessageView::Error(bare_error_record(s))),
        parse_spec(seq![s]) == seq![MessageView::Error(bare_error_record(s))],
        lookup(bare_error_record(s).details, "message"@) == Some(s.subrange(2, text_end(s, 2))),
{
    reveal_strlit("! ");
    lemma_first_char(s, "! "@);
    lemma_no_emitter(s);
    lemma_no_badbox(s);
    let ms = Seq::<MessageView>::empty();
    lemma_parse_one(ms, s);
    assert(ms.push(MessageView::Error(bare_error_record(s))) =~= seq![MessageView::Error(bare_error_record(s))]);
}

/// A line that starts with `(` yields no diagnostic.
proof fn lemma_paren_line(s: Seq<char>)
    requires
        s.len() > 0,
        s[0] == '(',
    ensures
        classify(s) is None,
{
    reveal_strlit("! ");
    lemma_no_emitter(s);
    lemma_no_badbox(s);
    if has_at(s, 0, "! "@) {
        lemma_first_char(s, "! "@);
    }
}

/// The prefix of the continuation lines of component `n`.
pub open spec fn cont_prefix(n: Seq<char>) -> Seq<char> {
    "("@ + n + ") "@
}

/// The text that a continuation line `c` of component `n` adds.
pub open spec fn cont_text(c: Seq<char>, n: Seq<char>) -> Seq<char> {
    c.subrange(space_end(c, cont_prefix(n).len() as int), c.len() as int)
}

/// The texts of the continuation lines `cs`, one after the other.
pub open spec fn joined(cs: Seq<Seq<char>>, n: Seq<char>) -> Seq<char>
    decreases cs.len(),
{
    if cs.len() == 0 {
        Seq::empty()
    } else {
        joined(cs.drop_last(), n) + cont_text(cs.last(), n)
    }
}

/// `m` after the continuation lines `cs` of component `n`.
pub open spec fn merged(m: MessageView, cs: Seq<Seq<char>>, n: Seq<char>) -> MessageView
    decreases cs.len(),
{
    if cs.len() == 0 {
        m
    } else {
        extend_view(merged(m, cs.drop_last(), n), cont_text(cs.last(), n))
    }
}

/// Changing the value of a pair leaves every key where it was.
proof fn lemma_key_index_same_keys(d: FieldsView, e: FieldsView, k: Seq<char>, i: int)
    requires
        d.len() == e.len(),
        forall|j: int| 0 <= j < d.len() ==> d[j].0 == e[j].0,
        0 <= i <= d.len(),
    ensures
        key_index(d, k, i) == key_index(e, k, i),
    decreases d.len() - i,
{
    if i < d.len() && d[i].0 != k {
        lemma_key_index_same_keys(d, e, k, i + 1);
    }
}

/// Extending the message appends to it and keeps every other field.
proof fn lemma_extend_field(d: FieldsView, t: Seq<char>, k: Seq<char>)
    requires
        lookup(d, "message"@) is Some,
    ensures
        lookup(extend_field(d, t), "message"@) == Some(lookup(d, "message"@).unwrap() + t),
        k != "message"@ ==> lookup(extend_field(d, t), k) == lookup(d, k),
{
    let j = key_index(d, "message"@, 0);
    lemma_key_index(d, "message"@, 0);
    lemma_key_index(d, k, 0);
    let e = extend_field(d, t);
    assert(e == d.update(j, ("message"@, d[j].1 + t)));
    lemma_key_index_same_keys(d, e, "message"@, 0);
    lemma_key_index_same_keys(d, e, k, 0);
}

/// A key that some pair has can be looked up.
proof fn lemma_lookup_last(d: FieldsView, k: Seq<char>)
    requires
        d.len() > 0,
        d.last().0 == k,
    ensures
        lookup(d, k) is Some,
{
    lemma_key_index(d, k, 0);
}

/// A continuation line starts with `(`.
proof fn lemma_continuation_paren(m: MessageView, s: Seq<char>)
    requires
        continuation(m, s) is Some,
    ensures
        s.len() > 0,
        s[0] == '(',
{
    reveal_strlit("(");
    let p = cont_prefix(merge_name(m).unwrap());
    assert(p[0] == '(');
    lemma_first_char(s, p);
}

/// The keys of the component name differ from the key of the message.
proof fn lemma_keys_differ()
    ensures
        "component"@ != "message"@,
        "package"@ != "message"@,
        "class"@ != "message"@,
{
    reveal_strlit("message");
    reveal_strlit("component");
    reveal_strlit("package");
    reveal_strlit("class");
    assert("package"@[0] != "message"@[0]);
}

/// A diagnostic with a component wraps a record that has a message.
proof fn lemma_classified_message(line: Seq<char>)
    requires
        classify(line) is Some,
        merge_name(classify(line).unwrap()) is Some,
    ensures
        record_of(classify(line).unwrap()) is Some,
        lookup(record_of(classify(line).unwrap()).unwrap().details, "message"@) is Some,
{
    let m = classify(line).unwrap();
    let d0 = record_of(m).unwrap().details;
    assert(d0.len() > 0 && d0.last().0 == "message"@);
    lemma_lookup_last(d0, "message"@);
}

/// Extending the message of a diagnostic keeps its component.
proof fn lemma_extend_keeps_name(m: MessageView, t: Seq<char>)
    requires
        merge_name(m) is Some,
        lookup(record_of(m).unwrap().details, "message"@) is Some,
    ensures
        merge_name(extend_view(m, t)) == merge_name(m),
        record_of(extend_view(m, t)) is Some,
        lookup(record_of(extend_view(m, t)).unwrap().details, "message"@) == Some(
            lookup(record_of(m).unwrap().details, "message"@).unwrap() + t,
        ),
{
    let d = record_of(m).unwrap().details;
    lemma_keys_differ();
    lemma_extend_field(d, t, "component"@);
    lemma_extend_field(d, t, "package"@);
    lemma_extend_field(d, t, "class"@);
}

proof fn lemma_merged_base(ms: Seq<MessageView>, line: Seq<char>)
    requires
        classify(line) is Some,
    ensures
        parse_from(ms, seq![line]) == ms.push(classify(line).unwrap()),
{
    lemma_parse_one(ms, line);
    if ms.len() > 0 && continuation(ms.last(), line) is Some {
        lemma_continuation_paren(ms.last(), line);
        lemma_paren_line(line);
    }
}

proof fn lemma_merged(ms: Seq<MessageView>, line: Seq<char>, cs: Seq<Seq<char>>, n: Seq<char>)
    requires
        classify(line) is Some,
        merge_name(classify(line).unwrap()) == Some(n),
        forall|i: int| 0 <= i < cs.len() ==> has_at(#[trigger] cs[i], 0, cont_prefix(n)),
    ensures
        parse_from(ms, seq![line] + cs) == ms.push(merged(classify(line).unwrap(), cs, n)),
        merge_name(merged(classify(line).unwrap(), cs, n)) == Some(n),
        record_of(merged(classify(line).unwrap(), cs, n)) is Some,
        lookup(record_of(merged(classify(line).unwrap(), cs, n)).unwrap().details, "message"@)
            == Some(lookup(record_of(classify(line).unwrap()).unwrap().details, "message"@).unwrap()
            + joined(cs, n)),
    decreases cs.len(),
{
    let m = classify(line).unwrap();
    lemma_classified_message(line);
    let m0 = lookup(record_of(m).unwrap().details, "message"@).unwrap();
    if cs.len() == 0 {
        assert(seq![line] + cs =~= seq![line]);
        lemma_merged_base(ms, line);
        assert(m0 + joined(cs, n) =~= m0);
    } else {
        let rest = cs.drop_last();
        let c = cs.last();
        assert forall|i: int| 0 <= i < rest.len() implies has_at(#[trigger] rest[i], 0, cont_prefix(n)) by {
            assert(rest[i] == cs[i]);
        }
        lemma_merged(ms, line, rest, n);
        let prev = merged(m, rest, n);
        let all = seq![line] + cs;
        assert(all.drop_last() =~= seq![line] + rest);
        assert(all.last() == c);
        assert(has_at(cs[cs.len() - 1], 0, cont_prefix(n)));
        let before = ms.push(prev);
        assert(before.last() == prev);
        assert(continuation(prev, c) == Some(cont_text(c, n)));
        assert(step(before, c) =~= ms.push(extend_view(prev, cont_text(c, n))));
        lemma_extend_keeps_name(prev, cont_text(c, n));
        assert(m0 + joined(rest, n) + cont_text(c, n) =~= m0 + joined(cs, n));
    }
}

/// A diagnostic with a component, followed by lines `(name) text` of that
/// component, stays one diagnostic: each text, without its leading white
/// space, is added in order at the end of its message, and no diagnostic is
/// made of the continuation lines.
pub proof fn lemma_continuations_merge(
    ms: Seq<MessageView>,
    line: Seq<char>,
    cs: Seq<Seq<char>>,
    n: Seq<char>,
)
    requires
        classify(line) is Some,
        merge_name(classify(line).unwrap()) == Some(n),
        forall|i: int| 0 <= i < cs.len() ==> has_at(#[trigger] cs[i], 0, cont_prefix(n)),
    ensures
        parse_from(ms, seq![line] + cs).len() == ms.len() + 1,
        parse_from(ms, seq![line] + cs).subrange(0, ms.len() as int) == ms,
        lookup(record_of(parse_from(ms, seq![line] + cs).last()).unwrap().details, "message"@)
            == Some(lookup(record_of(classify(line).unwrap()).unwrap().details, "message"@).unwrap()
            + joined(cs, n)),
{
    lemma_merged(ms, line, cs, n);
    let r = parse_from(ms, seq![line] + cs);
    assert(r.subrange(0, ms.len() as int) =~= ms);
}

/// All of `d` are digits.
pub open spec fn all_digits(d: Seq<char>) -> bool {
    forall|j: int| 0 <= j < d.len() ==> is_digit(#[trigger] d[j])
}

proof fn lemma_digit_run(s: Seq<char>, a: int, k: int)
    requires
        0 <= a,
        0 <= k,
        a + k <= s.len(),
        forall|j: int| a <= j < a + k ==> is_digit(#[trigger] s[j]),
        a + k == s.len() || !is_digit(s[a + k]),
    ensures
        digit_end(s, a) == a + k,
    decreases k,
{
    if k > 0 {
        lemma_digit_run(s, a + 1, k - 1);
    }
}

/// A text that holds `lit` at `i` holds its first character there.
proof fn lemma_char_at(s: Seq<char>, i: int, lit: Seq<char>)
    requires
        lit.len() > 0,
        has_at(s, i, lit),
    ensures
        s[i] == lit[0],
{
    assert(s.subrange(i, i + lit.len())[0] == s[i]);
}

/// Every line `Underfull \vbox (badness N) has occurred while \output is
/// active [P]`, with N digits and P digits or nothing, yields exactly one
/// diagnostic, a badbox, and so no error, warning or informational record.
pub proof fn lemma_underfull_vbox_output(n: Seq<char>, p: Seq<char>)
    requires
        n.len() > 0,
        all_digits(n),
        all_digits(p),
    ensures
        parse_spec(seq![
            "Underfull \\vbox (badness "@ + n + ") has occurred while \\output is active ["@ + p
                + "]"@,
        ]).len() == 1,
        parse_spec(seq![
            "Underfull \\vbox (badness "@ + n + ") has occurred while \\output is active ["@ + p
                + "]"@,
        ])[0] is Badbox,
{
    let u = "Underfull \\vbox (badness "@;
    let m = ") has occurred while \\output is active ["@;
    let s = u + n + m + p + "]"@;
    reveal_strlit("Underfull \\vbox (badness ");
    reveal_strlit(") has occurred while \\output is active [");
    reveal_strlit("]");
    reveal_strlit("Under");
    reveal_strlit("Over");
    reveal_strlit("full \\");
    reveal_strlit("box (");
    reveal_strlit("badness ");
    reveal_strlit(") ");
    reveal_strlit("in paragraph ");
    reveal_strlit("in alignment ");
    reveal_strlit("detected ");
    reveal_strlit("has occurred while \\output is active [");
    assert(s[0] == 'U');
    lemma_no_emitter(s);
    if has_at(s, 0, "Over"@) {
        lemma_char_at(s, 0, "Over"@);
    }
    assert(s.subrange(0, 5) =~= "Under"@);
    assert(s.subrange(5, 11) =~= "full \\"@);
    assert(s.subrange(12, 17) =~= "box ("@);
    assert(box_head(s) == Some((5int, 17int)));
    assert(s.subrange(17, 25) =~= "badness "@);
    let e: int = 25 + n.len() as int;
    lemma_digit_run(s, 25, n.len() as int);
    assert(s.subrange(e, e + 2) =~= ") "@);
    assert(badness_at(s, 17) == Some(((25int, e), e + 2)));
    let i: int = e + 2;
    assert(s[i] == 'h');
    if has_at(s, i, "in paragraph "@) {
        lemma_char_at(s, i, "in paragraph "@);
    }
    if has_at(s, i, "in alignment "@) {
        lemma_char_at(s, i, "in alignment "@);
    }
    if has_at(s, i, "detected "@) {
        lemma_char_at(s, i, "detected "@);
    }
    assert(s.subrange(i, i + 38) =~= "has occurred while \\output is active ["@);
    let q: int = i + 38;
    lemma_digit_run(s, q, p.len() as int);
    assert(s.subrange(q + p.len() as int, q + p.len() as int + 1) =~= "]"@);
    assert(place_at(s, i) is Some);
    assert(badbox_at(s) is Some);
    lemma_parse_one(Seq::empty(), s);
}

proof fn lemma_word_run(s: Seq<char>, a: int, k: int)
    requires
        0 <= a,
        0 <= k,
        a + k <= s.len(),
        forall|j: int| a <= j < a + k ==> is_word(#[trigger] s[j]),
        a + k == s.len() || !is_word(s[a + k]),
    ensures
        word_end(s, a) == a + k,
    decreases k,
{
    if k > 0 {
        lemma_word_run(s, a + 1, k - 1);
    }
}

/// A size as the engine writes it: digits `d`, and `.f` where `f` is not empty.
pub open spec fn size_text(d: Seq<char>, f: Seq<char>) -> Seq<char> {
    if f.len() == 0 {
        d
    } else {
        d + "."@ + f
    }
}

proof fn lemma_overfull_size(s: Seq<char>, d: Seq<char>, f: Seq<char>, rest: Seq<char>)
    requires
        d.len() > 0 && all_digits(d),
        all_digits(f),
        s == "Overfull \\hbox ("@ + size_text(d, f) + "pt too wide) "@ + rest,
    ensures
        box_head(s) == Some((4int, 16int)),
        badness_at(s, 16) is None,
        size_at(s, 16) == Some(((16int, 16 + size_text(d, f).len() + 2 as int), (16 + size_text(d, f).len() + 13) as int)),
        s.subrange(16, 16 + size_text(d, f).len() + 2 as int) == size_text(d, f) + "pt"@,
{
    reveal_strlit("Overfull \\hbox (");
    reveal_strlit("pt too wide) ");
    reveal_strlit(".");
    reveal_strlit("pt");
    reveal_strlit("Over");
    reveal_strlit("full \\");
    reveal_strlit("box (");
    reveal_strlit("badness ");
    reveal_strlit("pt too ");
    reveal_strlit(") ");
    let x = size_text(d, f);
    assert(s.subrange(0, 4) =~= "Over"@);
    assert(s.subrange(4, 10) =~= "full \\"@);
    assert(s.subrange(11, 16) =~= "box ("@);
    assert(is_digit(s[16]));
    if has_at(s, 16, "badness "@) {
        lemma_char_at(s, 16, "badness "@);
    }
    let e1: int = 16 + d.len() as int;
    lemma_digit_run(s, 16, d.len() as int);
    let e2: int = 16 + x.len() as int;
    if f.len() == 0 {
        assert(s[e1] == 'p');
    } else {
        assert(s[e1] == '.');
        lemma_digit_run(s, e1 + 1, f.len() as int);
    }
    assert(s.subrange(e2, e2 + 7) =~= "pt too "@);
    lemma_word_run(s, e2 + 7, 4);
    let w: int = e2 + 11;
    assert(s.subrange(w, w + 2) =~= ") "@);
    assert(s.subrange(16, e2 + 2) =~= x + "pt"@);
}

proof fn lemma_paragraph_lines(s: Seq<char>, pre: Seq<char>, a: Seq<char>, b: Seq<char>)
    requires
        a.len() > 0 && all_digits(a),
        b.len() > 0 && all_digits(b),
        s == pre + "in paragraph at lines "@ + a + "--"@ + b,
    ensures
        place_at(s, pre.len() as int) == Some((
            PlaceSpan::Lines(
                (pre.len() + 22 as int, pre.len() + 22 + a.len() as int),
                (pre.len() + 24 + a.len() as int, s.len() as int),
            ),
            s.len() as int,
        )),
        s.subrange(pre.len() + 22 as int, pre.len() + 22 + a.len() as int) == a,
        s.subrange(pre.len() + 24 + a.len() as int, s.len() as int) == b,
{
    reveal_strlit("in paragraph at lines ");
    reveal_strlit("--");
    reveal_strlit("in paragraph ");
    reveal_strlit("at lines ");
    let i = pre.len() as int;
    let j: int = i + 13;
    assert(s.subrange(i, j) =~= "in paragraph "@);
    assert(s.subrange(j, j + 9) =~= "at lines "@);
    let k: int = j + 9;
    lemma_digit_run(s, k, a.len() as int);
    let e: int = k + a.len() as int;
    assert(s.subrange(e, e + 2) =~= "--"@);
    lemma_digit_run(s, e + 2, b.len() as int);
    assert(s.subrange(k, e) =~= a);
    assert(s.subrange(e + 2, s.len() as int) =~= b);
}

/// The range of a badbox record can be looked up by its keys.
proof fn lemma_lines_lookup(s: Seq<char>, bb: (int, int, (int, int), PlaceSpan, int))
    requires
        bb.3 is Lines,
    ensures
        ({
            let d = badbox_record(s, bb).details;
            &&& match bb.3 {
                PlaceSpan::Lines(x, y) => lookup(d, "start_line"@) == Some(s.subrange(x.0, x.1))
                    && lookup(d, "end_line"@) == Some(s.subrange(y.0, y.1)),
                _ => true,
            }
            &&& lookup(d, "by"@) == Some(s.subrange(bb.2.0, bb.2.1)) && lookup(d, "line"@) is None
                && lookup(d, "page"@) is None
        }),
{
    reveal_strlit("type");
    reveal_strlit("direction");
    reveal_strlit("by");
    reveal_strlit("start_line");
    reveal_strlit("end_line");
    let d = badbox_record(s, bb).details;
    assert(d.len() == 5);
    assert(d[0].0 == "type"@);
    assert(d[1].0 == "direction"@);
    assert(d[2].0 == "by"@);
    assert(d[3].0 == "start_line"@);
    assert(d[4].0 == "end_line"@);
    assert("start_line"@[0] != "end_line"@[0]);
    assert(key_index(d, "start_line"@, 0) == 3) by {
        reveal_with_fuel(key_index, 5);
    }
    assert(key_index(d, "end_line"@, 0) == 4) by {
        reveal_with_fuel(key_index, 6);
    }
    reveal_strlit("line");
    reveal_strlit("page");
    assert("type"@[0] != "line"@[0]);
    assert("type"@[0] != "page"@[0]);
    assert(key_index(d, "by"@, 0) == 2) by {
        reveal_with_fuel(key_index, 4);
    }
    assert(key_index(d, "line"@, 0) == 5) by {
        reveal_with_fuel(key_index, 7);
    }
    assert(key_index(d, "page"@, 0) == 5) by {
        reveal_with_fuel(key_index, 7);
    }
}

/// A line that names no emitter and has the shape of a badbox yields that
/// badbox alone.
proof fn lemma_single_badbox(s: Seq<char>)
    requires
        s.len() > 0,
        s[0] == 'O' || s[0] == 'U',
        badbox_at(s) is Some,
    ensures
        parse_spec(seq![s]) == seq![MessageView::Badbox(badbox_record(s, badbox_at(s).unwrap()))],
{
    lemma_no_emitter(s);
    lemma_parse_one(Seq::empty(), s);
    assert(Seq::<MessageView>::empty().push(MessageView::Badbox(badbox_record(s, badbox_at(s).unwrap())))
        =~= seq![MessageView::Badbox(badbox_record(s, badbox_at(s).unwrap()))]);
}

/// Every line `Overfull \\hbox (Xpt too wide) in paragraph at lines A--B`,
/// X being digits with an optional fraction and A and B runs of digits,
/// yields exactly one diagnostic: a badbox whose `start_line` is A, whose
/// `end_line` is B, whose `by` is `Xpt`, and which has neither a `line` nor a
/// `page` field.
#[verifier::rlimit(60)]
pub proof fn lemma_overfull_hbox_lines(
    d: Seq<char>,
    f: Seq<char>,
    a: Seq<char>,
    b: Seq<char>,
)
    requires
        d.len() > 0 && all_digits(d),
        all_digits(f),
        a.len() > 0 && all_digits(a),
        b.len() > 0 && all_digits(b),
    ensures
        ({
            let s = "Overfull \\hbox ("@ + size_text(d, f) + "pt too wide) in paragraph at lines "@
                + a + "--"@ + b;
            let det = record_of(parse_spec(seq![s])[0]).unwrap().details;
            &&& parse_spec(seq![s]).len() == 1
            &&& parse_spec(seq![s])[0] is Badbox
            &&& lookup(det, "start_line"@) == Some(a)
            &&& lookup(det, "end_line"@) == Some(b)
            &&& lookup(det, "by"@) == Some(size_text(d, f) + "pt"@)
            &&& lookup(det, "line"@) is None
            &&& lookup(det, "page"@) is None
        }),
{
    reveal_strlit("pt too wide) in paragraph at lines ");
    reveal_strlit("pt too wide) ");
    reveal_strlit("in paragraph at lines ");
    let x = size_text(d, f);
    let s = "Overfull \\hbox ("@ + x + "pt too wide) in paragraph at lines "@ + a + "--"@ + b;
    let rest = "in paragraph at lines "@ + a + "--"@ + b;
    let pre = "Overfull \\hbox ("@ + x + "pt too wide) "@;
    assert(s =~= pre + rest);
    assert(s =~= pre + "in paragraph at lines "@ + a + "--"@ + b);
    lemma_overfull_size(s, d, f, rest);
    lemma_paragraph_lines(s, pre, a, b);
    reveal_strlit("Overfull \\hbox (");
    assert(pre.len() == 16 + x.len() + 13);
    assert(s[0] == 'O');
    let bb = badbox_at(s);
    assert(bb is Some);
    assert(bb.unwrap().3 is Lines);
    assert(bb.unwrap().2 == (16int, 16 + x.len() + 2 as int));
    lemma_single_badbox(s);
    lemma_lines_lookup(s, badbox_at(s).unwrap());
}

proof fn lemma_until_run(s: Seq<char>, a: int, k: int, c: char)
    requires
        0 <= a,
        0 <= k,
        a + k <= s.len(),
        forall|j: int| a <= j < a + k ==> #[trigger] s[j] != c,
        a + k == s.len() || s[a + k] == c,
    ensures
        until(s, a, c) == a + k,
    decreases k,
{
    if k > 0 {
        lemma_until_run(s, a + 1, k - 1, c);
    }
}

/// A line `LaTeX Warning: M` is a warning of the engine, with no name and no
/// extra, whose message starts after `: `; it is no informational record and
/// no badbox.
proof fn lemma_latex_warning_head(s: Seq<char>, rest: Seq<char>)
    requires
        s == "LaTeX Warning: "@ + rest,
    ensures
        generic_at(s, 0, Keyword::Info) is None,
        badbox_at(s) is None,
        generic_at(s, 0, Keyword::Warning) == Some((5int, Option::<(int, int)>::None, Option::<(int, int)>::None, 15int)),
{
    reveal_strlit("LaTeX Warning: ");
    reveal_strlit("LaTeX");
    reveal_strlit(" ");
    reveal_strlit(" (");
    reveal_strlit(": ");
    reveal_strlit("arning");
    reveal_strlit("nfo");
    assert(s.subrange(0, 5) =~= "LaTeX"@);
    assert(type_end(s, 0) == Some(5int));
    lemma_no_badbox(s);
    lemma_word_run(s, 6, 7);
    if has_at(s, 13, " "@) {
        lemma_char_at(s, 13, " "@);
    }
    assert(kw_end(s, 13, Keyword::Info) is None);
    assert(kw_end(s, 13, Keyword::Warning) is None);
    assert(kw_tail(s, 13, Keyword::Info) is None);
    assert(kw_tail(s, 13, Keyword::Warning) is None);
    assert(s.subrange(5, 6) =~= " "@);
    assert(kw_end(s, 5, Keyword::Info) is None);
    assert(s.subrange(7, 13) =~= "arning"@);
    assert(kw_end(s, 5, Keyword::Warning) == Some(13int));
    if has_at(s, 13, " ("@) {
        lemma_char_at(s, 13, " ("@);
    }
    assert(extra_end(s, 13) is None);
    assert(s.subrange(13, 15) =~= ": "@);
}

/// Neither a quote nor a newline is in `x`.
pub open spec fn plain_label(x: Seq<char>) -> bool {
    x.len() > 0 && forall|j: int| 0 <= j < x.len() ==> #[trigger] x[j] != '\'' && x[j] != '\n'
}

proof fn lemma_missing_message(m: Seq<char>, w: Seq<char>, x: Seq<char>)
    requires
        w == "Reference"@ || w == "Citation"@,
        plain_label(x),
        m == w + " `"@ + x + "' on page 1 undefined on input line 7."@,
    ensures
        missing_at(m) == Some((w == "Citation"@, (w.len() + 2 as int, w.len() + 2 + x.len() as int))),
        m.subrange(w.len() + 2 as int, w.len() + 2 + x.len() as int) == x,
{
    reveal_strlit("Reference");
    reveal_strlit("Citation");
    reveal_strlit(" `");
    reveal_strlit("' on page 1 undefined on input line 7.");
    reveal_strlit("' on page ");
    reveal_strlit(" undefined on input line ");
    let p = w.len() as int;
    if w == "Reference"@ {
        if has_at(m, 0, "Citation"@) {
            lemma_char_at(m, 0, "Citation"@);
        }
    }
    assert(m.subrange(0, p) =~= w);
    assert(m.subrange(p, p + 2) =~= " `"@);
    let a = p + 2;
    let b = a + x.len();
    lemma_until_run(m, a, x.len() as int, '\'');
    assert(m.subrange(b, b + 10) =~= "' on page "@);
    let d = b + 10;
    lemma_digit_run(m, d, 1);
    let e = d + 1;
    assert(m.subrange(e, e + 25) =~= " undefined on input line "@);
    let f = e + 25;
    lemma_digit_run(m, f, 1);
    assert(m.subrange(a, b) =~= x);
}

proof fn lemma_missing_line(w: Seq<char>, x: Seq<char>)
    requires
        w == "Reference"@ || w == "Citation"@,
        plain_label(x),
    ensures
        ({
            let s = "LaTeX Warning: "@ + w + " `"@ + x + "' on page 1 undefined on input line 7."@;
            parse_spec(seq![s]) == seq![
                if w == "Citation"@ {
                    MessageView::MissingCitation { label: x }
                } else {
                    MessageView::MissingReference { label: x }
                },
            ]
        }),
{
    reveal_strlit("LaTeX Warning: ");
    reveal_strlit("Reference");
    reveal_strlit("Citation");
    reveal_strlit(" `");
    reveal_strlit("' on page 1 undefined on input line 7.");
    let m = w + " `"@ + x + "' on page 1 undefined on input line 7."@;
    let s = "LaTeX Warning: "@ + w + " `"@ + x + "' on page 1 undefined on input line 7."@;
    assert(s =~= "LaTeX Warning: "@ + m);
    lemma_latex_warning_head(s, m);
    assert forall|j: int| 15 <= j < s.len() implies #[trigger] s[j] != '\n' by {
        assert(s[j] == m[j - 15]);
        if j - 15 >= w.len() + 2 && j - 15 < w.len() + 2 + x.len() {
            assert(m[j - 15] == x[j - 15 - w.len() - 2]);
        }
    }
    lemma_until_run(s, 15, s.len() - 15, '\n');
    assert(s.subrange(15, s.len() as int) =~= m);
    lemma_missing_message(m, w, x);
    let g = generic_at(s, 0, Keyword::Warning).unwrap();
    assert(text_end(s, 15) == s.len());
    let v = warning_diagnostic(s, g);
    assert(v == if w == "Citation"@ {
        MessageView::MissingCitation { label: x }
    } else {
        MessageView::MissingReference { label: x }
    });
    lemma_parse_one(Seq::empty(), s);
    assert(Seq::<MessageView>::empty().push(v) =~= seq![v]);
}

proof fn lemma_count_one(v: MessageView, p: spec_fn(MessageView) -> bool)
    ensures
        count_where(seq![v], p) == if p(v) {
            1nat
        } else {
            0nat
        },
{
    assert(seq![v].drop_last() =~= Seq::<MessageView>::empty());
    assert(seq![v].last() == v);
    assert(count_where(Seq::<MessageView>::empty(), p) == 0);
}

/// `LaTeX Warning: Reference \`X' on page 1 undefined on input line 7.`, X
/// holding neither a quote nor a newline, yields one missing reference with
/// label X and no warning.
pub proof fn lemma_missing_reference(x: Seq<char>, r: BuildReport)
    requires
        plain_label(x),
        r.wf(),
        r.diagnostics() == parse_spec(
            seq!["LaTeX Warning: Reference `"@ + x + "' on page 1 undefined on input line 7."@],
        ),
    ensures
        r.missing_references == 1,
        r.warnings == 0,
        r.diagnostics() == seq![MessageView::MissingReference { label: x }],
{
    reveal_strlit("LaTeX Warning: Reference `");
    reveal_strlit("LaTeX Warning: ");
    reveal_strlit("Reference");
    reveal_strlit("Citation");
    reveal_strlit(" `");
    let tail = "' on page 1 undefined on input line 7."@;
    assert("LaTeX Warning: Reference `"@ + x + tail =~= "LaTeX Warning: "@ + "Reference"@ + " `"@ + x
        + tail);
    lemma_missing_line("Reference"@, x);
    assert("Reference"@ != "Citation"@);
    let v = MessageView::MissingReference { label: x };
    lemma_count_one(v, |m| is_missing_reference(m));
    lemma_count_one(v, |m| is_warning(m));
}

/// `LaTeX Warning: Citation \`X' on page 1 undefined on input line 7.`, X
/// holding neither a quote nor a newline, yields one missing citation with
/// label X and no warning.
pub proof fn lemma_missing_citation(x: Seq<char>, r: BuildReport)
    requires
        plain_label(x),
        r.wf(),
        r.diagnostics() == parse_spec(
            seq!["LaTeX Warning: Citation `"@ + x + "' on page 1 undefined on input line 7."@],
        ),
    ensures
        r.missing_citations == 1,
        r.warnings == 0,
        r.diagnostics() == seq![MessageView::MissingCitation { label: x }],
{
    reveal_strlit("LaTeX Warning: Citation `");
    reveal_strlit("LaTeX Warning: ");
    reveal_strlit("Citation");
    reveal_strlit(" `");
    let tail = "' on page 1 undefined on input line 7."@;
    assert("LaTeX Warning: Citation `"@ + x + tail =~= "LaTeX Warning: "@ + "Citation"@ + " `"@ + x
        + tail);
    lemma_missing_line("Citation"@, x);
    let v = MessageView::MissingCitation { label: x };
    lemma_count_one(v, |m| is_missing_citation(m));
    lemma_count_one(v, |m| is_warning(m));
}

} // verus!
