//! Classifying log lines into diagnostics, and folding continuation lines
//! into the diagnostic they continue.
use vstd::prelude::*;
use crate::grammar::{
    badbox_at, badbox_at_exec, generic_at, generic_at_exec, has_at, lit_at, missing_at,
    missing_at_exec, place_view, span_of, text_end, until_at, Keyword, Place, PlaceSpan,
};
use crate::grammar::{opt_span_ok, place_ok, span_ok};
use crate::report::{BuildReport, Details, InfoView, Message, MessageInfo, MessageView};
use crate::report::{
    extend_view, keys_unique, merge_name, record_of, same_text,
    FieldsView,
};
use crate::grammar::{space_end, space_end_at, chars_of};

verus! {

/// The key under which the name after an emitter `ty` is kept.
pub open spec fn name_key(ty: Seq<char>) -> Seq<char> {
    if ty == "Package"@ {
        "package"@
    } else if ty == "Class"@ {
        "class"@
    } else {
        "component"@
    }
}

/// The record of a named diagnostic that starts at `i` of line `s`, with the
/// spans `g` that `generic_at` gives.
pub open spec fn generic_record(
    s: Seq<char>,
    i: int,
    g: (int, Option<(int, int)>, Option<(int, int)>, int),
) -> InfoView {
    let ty = s.subrange(i, g.0);
    let e = text_end(s, g.3);
    let with_name = match g.1 {
        Some(n) => seq![("type"@, ty), (name_key(ty), s.subrange(n.0, n.1))],
        None => seq![("type"@, ty)],
    };
    let with_extra = match g.2 {
        Some(x) => with_name.push(("extra"@, s.subrange(x.0, x.1))),
        None => with_name,
    };
    InfoView {
        full: s.subrange(0, e),
        details: with_extra.push(("message"@, s.subrange(g.3, e))),
        context_lines: seq![],
    }
}

/// The record of a bare `! message` line.
pub open spec fn bare_error_record(s: Seq<char>) -> InfoView {
    let e = text_end(s, 2);
    InfoView {
        full: s.subrange(0, e),
        details: seq![("message"@, s.subrange(2, e))],
        context_lines: seq![],
    }
}

/// The record of a badbox line, with the spans `b` that `badbox_at` gives.
/// `by` holds the amount that the line gives, whatever the type: an
/// overfull box is reported with a size and an underfull one with a
/// badness, and a line that pairs them otherwise is recorded as it stands
/// rather than ending the pass, since the parser never aborts.
pub open spec fn badbox_record(
    s: Seq<char>,
    b: (int, int, (int, int), PlaceSpan, int),
) -> InfoView {
    let head = seq![
        ("type"@, s.subrange(0, b.0)),
        ("direction"@, s.subrange(b.1, b.1 + 1)),
        ("by"@, s.subrange(b.2.0, b.2.1)),
    ];
    let details = match b.3 {
        PlaceSpan::Lines(x, y) => head + seq![
            ("start_line"@, s.subrange(x.0, x.1)),
            ("end_line"@, s.subrange(y.0, y.1)),
        ],
        PlaceSpan::Line(x) => head.push(("line"@, s.subrange(x.0, x.1))),
        PlaceSpan::Page(Some(x)) => head.push(("page"@, s.subrange(x.0, x.1))),
        PlaceSpan::Page(None) => head,
    };
    InfoView { full: s.subrange(0, b.4), details, context_lines: seq![] }
}

/// What a warning line yields: a missing citation or reference where its
/// message has that shape, else the warning itself.
pub open spec fn warning_diagnostic(s: Seq<char>, g: (int, Option<(int, int)>, Option<(int, int)>, int)) -> MessageView {
    let msg = s.subrange(g.3, text_end(s, g.3));
    match missing_at(msg) {
        Some((cite, l)) => if cite {
            MessageView::MissingCitation { label: msg.subrange(l.0, l.1) }
        } else {
            MessageView::MissingReference { label: msg.subrange(l.0, l.1) }
        },
        None => MessageView::Warning(generic_record(s, 0, g)),
    }
}

/// The diagnostic that line `s` yields, if any: the shapes are tried in the
/// order informational, badbox, warning, error.
pub open spec fn classify(s: Seq<char>) -> Option<MessageView> {
    if generic_at(s, 0, Keyword::Info) is Some {
        Some(MessageView::Info(generic_record(s, 0, generic_at(s, 0, Keyword::Info).unwrap())))
    } else if badbox_at(s) is Some {
        Some(MessageView::Badbox(badbox_record(s, badbox_at(s).unwrap())))
    } else if generic_at(s, 0, Keyword::Warning) is Some {
        Some(warning_diagnostic(s, generic_at(s, 0, Keyword::Warning).unwrap()))
    } else if has_at(s, 0, "! "@) {
        if generic_at(s, 2, Keyword::Error) is Some {
            Some(MessageView::Error(generic_record(s, 2, generic_at(s, 2, Keyword::Error).unwrap())))
        } else {
            Some(MessageView::Error(bare_error_record(s)))
        }
    } else {
        None
    }
}

/// The characters `a..b` of `line`.
fn piece(line: &str, a: usize, b: usize) -> (r: String)
    requires
        a <= b <= line@.len(),
    ensures
        r@ == line@.subrange(a as int, b as int),
{
    line.substring_char(a, b).to_owned()
}

fn generic_record_exec(
    line: &str,
    i: usize,
    g: (usize, Option<(usize, usize)>, Option<(usize, usize)>, usize),
    e: usize,
) -> (r: MessageInfo)
    requires
        i <= g.0 <= g.3 <= e <= line@.len(),
        e as int == text_end(line@, g.3 as int),
        opt_span_ok(g.1, line@.len() as int),
        opt_span_ok(g.2, line@.len() as int),
    ensures
        r@ == generic_record(line@, i as int, (g.0 as int, span_of(g.1), span_of(g.2), g.3 as int)),
{
    proof {
        reveal_strlit("Package");
        reveal_strlit("Class");
    }
    let ty = piece(line, i, g.0);
    let mut d = Details::new();
    let ghost d0 = d@;
    d.push_field("type".to_owned(), ty.clone());
    match g.1 {
        Some(n) => {
            let key = if same_text(ty.as_str(), "Package") {
                "package".to_owned()
            } else if same_text(ty.as_str(), "Class") {
                "class".to_owned()
            } else {
                "component".to_owned()
            };
            d.push_field(key, piece(line, n.0, n.1));
        },
        None => {},
    }
    match g.2 {
        Some(x) => {
            d.push_field("extra".to_owned(), piece(line, x.0, x.1));
        },
        None => {},
    }
    d.push_field("message".to_owned(), piece(line, g.3, e));
    let r = MessageInfo { full: piece(line, 0, e), details: d, context_lines: Vec::new() };
    proof {
        let gs = (g.0 as int, span_of(g.1), span_of(g.2), g.3 as int);
        assert(r@.details =~= generic_record(line@, i as int, gs).details);
        assert(r@.context_lines =~= Seq::<Seq<char>>::empty());
    }
    r
}

fn badbox_record_exec(line: &str, b: (usize, usize, (usize, usize), Place, usize)) -> (r: MessageInfo)
    requires
        line@.len() <= usize::MAX,
        b.4 <= line@.len(),
        b.0 <= line@.len(),
        b.1 + 1 <= line@.len(),
        span_ok(b.2, line@.len() as int),
        place_ok(b.3, line@.len() as int),
    ensures
        r@ == badbox_record(
            line@,
            (b.0 as int, b.1 as int, (b.2.0 as int, b.2.1 as int), place_view(b.3), b.4 as int),
        ),
{
    let mut d = Details::new();
    d.push_field("type".to_owned(), piece(line, 0, b.0));
    d.push_field("direction".to_owned(), piece(line, b.1, b.1 + 1));
    d.push_field("by".to_owned(), piece(line, b.2.0, b.2.1));
    match b.3 {
        Place::Lines(x, y) => {
            d.push_field("start_line".to_owned(), piece(line, x.0, x.1));
            d.push_field("end_line".to_owned(), piece(line, y.0, y.1));
        },
        Place::Line(x) => {
            d.push_field("line".to_owned(), piece(line, x.0, x.1));
        },
        Place::Page(Some(x)) => {
            d.push_field("page".to_owned(), piece(line, x.0, x.1));
        },
        Place::Page(None) => {},
    }
    let r = MessageInfo { full: piece(line, 0, b.4), details: d, context_lines: Vec::new() };
    proof {
        let bs = (b.0 as int, b.1 as int, (b.2.0 as int, b.2.1 as int), place_view(b.3), b.4 as int);
        assert(r@.details =~= badbox_record(line@, bs).details);
        assert(r@.context_lines =~= Seq::<Seq<char>>::empty());
    }
    r
}

proof fn lemma_key_names()
    ensures
        "type"@ != "package"@ && "type"@ != "class"@ && "type"@ != "component"@,
        "type"@ != "extra"@ && "type"@ != "message"@,
        "package"@ != "extra"@ && "class"@ != "extra"@ && "component"@ != "extra"@,
        "package"@ != "message"@ && "class"@ != "message"@ && "component"@ != "message"@,
        "extra"@ != "message"@,
        "type"@ != "direction"@ && "type"@ != "by"@ && "direction"@ != "by"@,
        "type"@ != "start_line"@ && "direction"@ != "start_line"@ && "by"@ != "start_line"@,
        "type"@ != "end_line"@ && "direction"@ != "end_line"@ && "by"@ != "end_line"@,
        "start_line"@ != "end_line"@,
        "type"@ != "line"@ && "direction"@ != "line"@ && "by"@ != "line"@,
        "type"@ != "page"@ && "direction"@ != "page"@ && "by"@ != "page"@,
{
    reveal_strlit("type");
    reveal_strlit("package");
    reveal_strlit("class");
    reveal_strlit("component");
    reveal_strlit("extra");
    reveal_strlit("message");
    reveal_strlit("direction");
    reveal_strlit("by");
    reveal_strlit("start_line");
    reveal_strlit("end_line");
    reveal_strlit("line");
    reveal_strlit("page");
    assert("type"@.len() == 4 && "direction"@.len() == 9 && "by"@.len() == 2);
    assert("start_line"@.len() == 10 && "end_line"@.len() == 8);
    assert("line"@.len() == 4 && "page"@.len() == 4);
    assert("package"@[0] != "message"@[0]);
    assert("class"@[0] != "extra"@[0]);
    assert("type"@[0] != "line"@[0]);
    assert("type"@[0] != "page"@[0]);
    assert("start_line"@[0] != "end_line"@[0]);
}

proof fn lemma_fields_unique(d: FieldsView)
    requires
        d.len() <= 5,
        forall|i: int, j: int| 0 <= i < j < d.len() ==> d[i].0 != d[j].0,
    ensures
        keys_unique(d),
{
    assert forall|i: int, j: int| 0 <= i < d.len() && 0 <= j < d.len() && i != j implies d[i].0
        != d[j].0 by {
        if i < j {
        } else {
            assert(d[j].0 != d[i].0);
        }
    }
}

proof fn lemma_generic_unique(
    s: Seq<char>,
    i: int,
    g: (int, Option<(int, int)>, Option<(int, int)>, int),
)
    ensures
        keys_unique(generic_record(s, i, g).details),
{
    lemma_key_names();
    let ty = s.subrange(i, g.0);
    assert(name_key(ty) == "package"@ || name_key(ty) == "class"@ || name_key(ty) == "component"@);
    let d = generic_record(s, i, g).details;
    assert(d.len() <= 4);
    assert(d[0].0 == "type"@);
    assert(d[d.len() - 1].0 == "message"@);
    assert forall|x: int, y: int| 0 <= x < y < d.len() implies d[x].0 != d[y].0 by {
        assert(x == 0 || x == 1 || x == 2);
        assert(y == 1 || y == 2 || y == 3);
    }
    lemma_fields_unique(d);
}

proof fn lemma_badbox_unique(s: Seq<char>, b: (int, int, (int, int), PlaceSpan, int))
    ensures
        keys_unique(badbox_record(s, b).details),
{
    lemma_key_names();
    let d = badbox_record(s, b).details;
    assert(d.len() <= 5);
    assert forall|x: int, y: int| 0 <= x < y < d.len() implies d[x].0 != d[y].0 by {
        assert(x == 0 || x == 1 || x == 2 || x == 3);
        assert(y == 1 || y == 2 || y == 3 || y == 4);
    }
    lemma_fields_unique(d);
}

/// No record that a line yields sets a key twice.
pub proof fn lemma_classified_keys_unique(line: Seq<char>)
    requires
        classify(line) is Some,
        record_of(classify(line).unwrap()) is Some,
    ensures
        keys_unique(record_of(classify(line).unwrap()).unwrap().details),
{
    if generic_at(line, 0, Keyword::Info) is Some {
        lemma_generic_unique(line, 0, generic_at(line, 0, Keyword::Info).unwrap());
    } else if badbox_at(line) is Some {
        lemma_badbox_unique(line, badbox_at(line).unwrap());
    } else if generic_at(line, 0, Keyword::Warning) is Some {
        lemma_generic_unique(line, 0, generic_at(line, 0, Keyword::Warning).unwrap());
    } else if generic_at(line, 2, Keyword::Error) is Some {
        lemma_generic_unique(line, 2, generic_at(line, 2, Keyword::Error).unwrap());
    } else {
        lemma_fields_unique(bare_error_record(line).details);
    }
}

/// The diagnostic that `line` yields, if any; a record that it yields sets
/// no key twice.
pub fn classify_line(line: &str) -> (r: Option<Message>)
    ensures
        match r {
            Some(m) => classify(line@) == Some(m@),
            None => classify(line@) is None,
        },
        r is Some && record_of(r.unwrap()@) is Some ==> keys_unique(
            record_of(r.unwrap()@).unwrap().details,
        ),
{
    let r = classify_exec(line);
    proof {
        if r is Some && record_of(r.unwrap()@) is Some {
            lemma_classified_keys_unique(line@);
        }
    }
    r
}

fn classify_exec(line: &str) -> (r: Option<Message>)
    ensures
        match r {
            Some(m) => classify(line@) == Some(m@),
            None => classify(line@) is None,
        },
{
    proof {
        reveal_strlit("! ");
    }
    let s = crate::grammar::chars_of(line);
    match generic_at_exec(&s, 0, Keyword::Info) {
        Some(g) => {
            let e = crate::grammar::until_at(&s, g.3, '\n');
            return Some(Message::Info(generic_record_exec(line, 0, g, e)));
        },
        None => {},
    }
    match badbox_at_exec(&s) {
        Some(b) => {
            return Some(Message::Badbox(badbox_record_exec(line, b)));
        },
        None => {},
    }
    match generic_at_exec(&s, 0, Keyword::Warning) {
        Some(g) => {
            let e = crate::grammar::until_at(&s, g.3, '\n');
            let msg = piece(line, g.3, e);
            let mc = crate::grammar::chars_of(msg.as_str());
            return match missing_at_exec(&mc) {
                Some((cite, l)) => {
                    let label = piece(msg.as_str(), l.0, l.1);
                    if cite {
                        Some(Message::MissingCitation { label })
                    } else {
                        Some(Message::MissingReference { label })
                    }
                },
                None => Some(Message::Warning(generic_record_exec(line, 0, g, e))),
            };
        },
        None => {},
    }
    if lit_at(&s, 0, "! ") {
        match generic_at_exec(&s, 2, Keyword::Error) {
            Some(g) => {
                let e = crate::grammar::until_at(&s, g.3, '\n');
                Some(Message::Error(generic_record_exec(line, 2, g, e)))
            },
            None => {
                let e = crate::grammar::until_at(&s, 2, '\n');
                let mut d = Details::new();
                d.push_field("message".to_owned(), piece(line, 2, e));
                let r = MessageInfo { full: piece(line, 0, e), details: d, context_lines: Vec::new() };
                proof {
                    assert(r@.details =~= bare_error_record(line@).details);
                    assert(r@.context_lines =~= Seq::<Seq<char>>::empty());
                }
                Some(Message::Error(r))
            },
        }
    } else {
        None
    }
}

/// Where `line` continues the message of `prev`: it starts with `(name) `,
/// `name` being the component of `prev`. The text is what follows, without
/// its leading white space.
pub open spec fn continuation(prev: MessageView, line: Seq<char>) -> Option<Seq<char>> {
    match merge_name(prev) {
        Some(n) => {
            let p = "("@ + n + ") "@;
            if has_at(line, 0, p) {
                Some(line.subrange(space_end(line, p.len() as int), line.len() as int))
            } else {
                None
            }
        },
        None => None,
    }
}

/// The diagnostics after one more line: its text joins the last diagnostic
/// where it continues it, else the line is classified.
pub open spec fn step(ms: Seq<MessageView>, line: Seq<char>) -> Seq<MessageView> {
    if ms.len() > 0 && continuation(ms.last(), line) is Some {
        ms.update(ms.len() - 1, extend_view(ms.last(), continuation(ms.last(), line).unwrap()))
    } else {
        match classify(line) {
            Some(m) => ms.push(m),
            None => ms,
        }
    }
}

/// The diagnostics after the lines `lines`, in order, starting from `ms`.
pub open spec fn parse_from(ms: Seq<MessageView>, lines: Seq<Seq<char>>) -> Seq<MessageView>
    decreases lines.len(),
{
    if lines.len() == 0 {
        ms
    } else {
        step(parse_from(ms, lines.drop_last()), lines.last())
    }
}

/// The diagnostics of a whole log.
pub open spec fn parse_spec(lines: Seq<Seq<char>>) -> Seq<MessageView> {
    parse_from(Seq::empty(), lines)
}

/// One pass over a build log: the report so far, and the number of trailing
/// context lines to keep (reserved; no context line is kept yet).
pub struct LogParser {
    report: BuildReport,
    collect_remaining: usize,
    context_lines: usize,
}

impl LogParser {
    pub closed spec fn wf(&self) -> bool {
        self.report.wf()
    }

    /// The diagnostics found so far.
    pub closed spec fn diagnostics(&self) -> Seq<MessageView> {
        self.report.diagnostics()
    }

    pub closed spec fn context_setting(&self) -> usize {
        self.context_lines
    }

    /// The number of context lines still to be kept (reserved).
    pub closed spec fn pending_context(&self) -> usize {
        self.collect_remaining
    }

    /// A parser with an empty report.
    pub fn new(context_lines: usize) -> (r: LogParser)
        ensures
            r.wf(),
            r.diagnostics() == Seq::<MessageView>::empty(),
            r.context_setting() == context_lines,
            r.pending_context() == 0,
    {
        LogParser { report: BuildReport::new(), collect_remaining: 0, context_lines }
    }

    /// Classifies `line` alone, with no regard to continuation, and records
    /// the diagnostic it yields.
    pub fn parse_line(&mut self, line: &str)
        requires
            old(self).wf(),
        ensures
            final(self).wf(),
            final(self).context_setting() == old(self).context_setting(),
            final(self).diagnostics() == match classify(line@) {
                Some(m) => old(self).diagnostics().push(m),
                None => old(self).diagnostics(),
            },
    {
        match classify_line(line) {
            Some(m) => self.report.add(m),
            None => {},
        }
    }

    /// The text of `line` that continues the last diagnostic, if it does.
    fn continued_text(&self, line: &str) -> (r: Option<String>)
        ensures
            self.diagnostics().len() > 0 ==> match r {
                Some(t) => continuation(self.diagnostics().last(), line@) == Some(t@),
                None => continuation(self.diagnostics().last(), line@) is None,
            },
            self.diagnostics().len() == 0 ==> r is None,
    {
        proof {
            reveal_strlit("(");
            reveal_strlit(") ");
        }
        let n = self.report.messages.len();
        if n == 0 {
            return None;
        }
        let ghost last = self.diagnostics().last();
        assert(self.report.messages@[n - 1]@ == last);
        let pattern = match self.report.messages[n - 1].get_component_name() {
            Some(c) => "(".to_owned().concat(c.as_str()).concat(") "),
            None => {
                return None;
            },
        };
        let s = chars_of(line);
        if lit_at(&s, 0, pattern.as_str()) {
            let k = space_end_at(&s, pattern.as_str().unicode_len());
            Some(piece(line, k, s.len()))
        } else {
            None
        }
    }

    /// Takes one more line of the log: its text joins the last diagnostic
    /// where it continues it, else the line is classified.
    pub fn feed(&mut self, line: &str)
        requires
            old(self).wf(),
        ensures
            final(self).wf(),
            final(self).context_setting() == old(self).context_setting(),
            final(self).diagnostics() == step(old(self).diagnostics(), line@),
    {
        match self.continued_text(line) {
            Some(t) => {
                self.report.extend_last(t.as_str());
                self.collect_remaining = 0;
            },
            None => self.parse_line(line),
        }
    }

    /// Takes the lines of a log in order and hands back the report.
    pub fn parse(self, lines: &Vec<String>) -> (r: BuildReport)
        requires
            self.wf(),
        ensures
            r.wf(),
            r.diagnostics() == parse_from(self.diagnostics(), lines@.map_values(|l: String| l@)),
    {
        let mut p = self;
        let ghost start = p.diagnostics();
        let ghost ls = lines@.map_values(|l: String| l@);
        let mut i: usize = 0;
        while i < lines.len()
            invariant
                p.wf(),
                i <= lines@.len(),
                ls == lines@.map_values(|l: String| l@),
                p.diagnostics() == parse_from(start, ls.subrange(0, i as int)),
            decreases lines@.len() - i,
        {
            proof {
                assert(ls.subrange(0, i + 1).drop_last() =~= ls.subrange(0, i as int));
            }
            p.feed(lines[i].as_str());
            i = i + 1;
        }
        proof {
            assert(ls.subrange(0, lines@.len() as int) =~= ls);
        }
        p.report
    }

    /// The report so far.
    pub fn into_report(self) -> (r: BuildReport)
        requires
            self.wf(),
        ensures
            r.wf(),
            r.diagnostics() == self.diagnostics(),
    {
        self.report
    }
}

/// The report of a whole log, given as its lines in order.
pub fn parse_lines(lines: &Vec<String>) -> (r: BuildReport)
    ensures
        r.wf(),
        r.diagnostics() == parse_spec(lines@.map_values(|l: String| l@)),
{
    LogParser::new(2).parse(lines)
}

} // verus!
