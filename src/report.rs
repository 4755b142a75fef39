//! The records of a build report and the report itself.
use vstd::prelude::*;

verus! {

/// The fields of a record, as (key, value) pairs in the order they were set.
pub type FieldsView = Seq<(Seq<char>, Seq<char>)>;

/// The index of the first pair at or after `i` whose key is `k`, or the length.
pub open spec fn key_index(d: FieldsView, k: Seq<char>, i: int) -> int
    decreases d.len() - i,
{
    if 0 <= i < d.len() && d[i].0 != k {
        key_index(d, k, i + 1)
    } else {
        i
    }
}

pub proof fn lemma_key_index(d: FieldsView, k: Seq<char>, i: int)
    requires
        0 <= i <= d.len(),
    ensures
        i <= key_index(d, k, i) <= d.len(),
        forall|j: int| i <= j < key_index(d, k, i) ==> d[j].0 != k,
        key_index(d, k, i) < d.len() ==> d[key_index(d, k, i)].0 == k,
    decreases d.len() - i,
{
    if i < d.len() && d[i].0 != k {
        lemma_key_index(d, k, i + 1);
    }
}

/// The value of key `k`, if it is set.
pub open spec fn lookup(d: FieldsView, k: Seq<char>) -> Option<Seq<char>> {
    let j = key_index(d, k, 0);
    if j < d.len() {
        Some(d[j].1)
    } else {
        None
    }
}

/// `d` with key `k` set to `v`: in place where the key is set, else added at the end.
pub open spec fn set_field(d: FieldsView, k: Seq<char>, v: Seq<char>) -> FieldsView {
    let j = key_index(d, k, 0);
    if j < d.len() {
        d.update(j, (k, v))
    } else {
        d.push((k, v))
    }
}

/// No key is set twice.
pub open spec fn keys_unique(d: FieldsView) -> bool {
    forall|i: int, j: int| 0 <= i < d.len() && 0 <= j < d.len() && i != j ==> d[i].0 != d[j].0
}

/// A small string table: the named fields of a diagnostic record.
#[derive(Clone, Debug)]
pub struct Details {
    entries: Vec<(String, String)>,
}

impl View for Details {
    type V = FieldsView;

    closed spec fn view(&self) -> FieldsView {
        self.entries@.map_values(|e: (String, String)| (e.0@, e.1@))
    }
}

/// Whether two strings hold the same characters.
pub fn same_text(a: &str, b: &str) -> (r: bool)
    ensures
        r == (a@ == b@),
{
    let n = a.unicode_len();
    if n != b.unicode_len() {
        return false;
    }
    let mut i: usize = 0;
    while i < n
        invariant
            n == a@.len() == b@.len(),
            i <= n,
            forall|k: int| 0 <= k < i ==> a@[k] == b@[k],
        decreases n - i,
    {
        if a.get_char(i) != b.get_char(i) {
            return false;
        }
        i = i + 1;
    }
    assert(a@ =~= b@);
    true
}

impl Details {
    pub fn new() -> (r: Details)
        ensures
            r@ == Seq::<(Seq<char>, Seq<char>)>::empty(),
            keys_unique(r@),
    {
        let r = Details { entries: Vec::new() };
        assert(r@ =~= Seq::<(Seq<char>, Seq<char>)>::empty());
        r
    }

    /// Where key `k` stands, or the number of fields.
    fn index_of(&self, k: &str) -> (r: usize)
        ensures
            r == key_index(self@, k@, 0),
    {
        proof {
            lemma_key_index(self@, k@, 0);
        }
        let mut i: usize = 0;
        while i < self.entries.len()
            invariant
                0 <= i <= self@.len(),
                self@.len() == self.entries@.len(),
                key_index(self@, k@, i as int) == key_index(self@, k@, 0),
            decreases self@.len() - i,
        {
            if same_text(self.entries[i].0.as_str(), k) {
                return i;
            }
            i = i + 1;
        }
        i
    }

    /// The value of key `k`, if it is set.
    pub fn get(&self, k: &str) -> (r: Option<&String>)
        ensures
            match r {
                Some(v) => lookup(self@, k@) == Some(v@),
                None => lookup(self@, k@) is None,
            },
    {
        let j = self.index_of(k);
        if j < self.entries.len() {
            Some(&self.entries[j].1)
        } else {
            None
        }
    }

    /// The (key, value) pairs, in the order they were set.
    pub fn pairs(&self) -> (r: &Vec<(String, String)>)
        ensures
            r@.map_values(|e: (String, String)| (e.0@, e.1@)) == self@,
    {
        &self.entries
    }

    /// Adds key `k` with value `v` at the end.
    pub(crate) fn push_field(&mut self, k: String, v: String)
        ensures
            final(self)@ == old(self)@.push((k@, v@)),
    {
        self.entries.push((k, v));
        proof {
            assert(final(self)@ =~= old(self)@.push((k@, v@)));
        }
    }

    /// Sets key `k` to `v`.
    pub fn insert(&mut self, k: String, v: String)
        ensures
            final(self)@ == set_field(old(self)@, k@, v@),
            keys_unique(old(self)@) ==> keys_unique(final(self)@),
    {
        proof {
            lemma_key_index(self@, k@, 0);
        }
        let j = self.index_of(k.as_str());
        if j < self.entries.len() {
            self.entries.set(j, (k, v));
        } else {
            self.entries.push((k, v));
        }
        proof {
            assert(final(self)@ =~= set_field(old(self)@, k@, v@));
        }
    }
}

/// A diagnostic record in mathematical form.
pub struct InfoView {
    pub full: Seq<char>,
    pub details: FieldsView,
    pub context_lines: Seq<Seq<char>>,
}

/// One diagnostic record: the matched text, its named fields, and the
/// trailing context lines (reserved; never filled by the parser).
#[derive(Clone, Debug)]
pub struct MessageInfo {
    pub full: String,
    pub details: Details,
    pub context_lines: Vec<String>,
}

impl View for MessageInfo {
    type V = InfoView;

    open spec fn view(&self) -> InfoView {
        InfoView {
            full: self.full@,
            details: self.details@,
            context_lines: self.context_lines@.map_values(|l: String| l@),
        }
    }
}

/// The key under which a record's component name stands: `component` for an
/// engine, `package` for a package, `class` for a document class.
pub open spec fn component_of(d: FieldsView) -> Option<Seq<char>> {
    if lookup(d, "component"@) is Some {
        lookup(d, "component"@)
    } else if lookup(d, "package"@) is Some {
        lookup(d, "package"@)
    } else {
        lookup(d, "class"@)
    }
}

/// `d` with `text` added at the end of its message (or as its message).
pub open spec fn extend_field(d: FieldsView, text: Seq<char>) -> FieldsView {
    match lookup(d, "message"@) {
        Some(m) => set_field(d, "message"@, m + text),
        None => set_field(d, "message"@, text),
    }
}

impl MessageInfo {
    /// The name of the component that emitted the record, if it has one.
    pub fn get_component_name(&self) -> (r: Option<&String>)
        ensures
            match r {
                Some(v) => component_of(self.details@) == Some(v@),
                None => component_of(self.details@) is None,
            },
    {
        match self.details.get("component") {
            Some(c) => Some(c),
            None => match self.details.get("package") {
                Some(p) => Some(p),
                None => self.details.get("class"),
            },
        }
    }

    /// Adds a trailing context line.
    pub fn add_context(&mut self, line: String)
        ensures
            final(self)@ == (InfoView {
                context_lines: old(self)@.context_lines.push(line@),
                ..old(self)@
            }),
    {
        self.context_lines.push(line);
        proof {
            assert(final(self)@.context_lines =~= old(self)@.context_lines.push(line@));
        }
    }

    /// Adds `text` at the end of the message; sets it as the message where
    /// there is none.
    pub fn extend_message(&mut self, text: &str)
        ensures
            final(self)@ == (InfoView { details: extend_field(old(self)@.details, text@), ..old(self)@ }),
    {
        let key = "message".to_owned();
        let v = match self.details.get("message") {
            Some(m) => m.clone().concat(text),
            None => text.to_owned(),
        };
        self.details.insert(key, v);
    }
}

/// A diagnostic in mathematical form.
pub enum MessageView {
    Error(InfoView),
    Warning(InfoView),
    Badbox(InfoView),
    Info(InfoView),
    MissingCitation { label: Seq<char> },
    MissingReference { label: Seq<char> },
}

/// One diagnostic of a build log.
#[derive(Clone, Debug)]
pub enum Message {
    Error(MessageInfo),
    Warning(MessageInfo),
    Badbox(MessageInfo),
    Info(MessageInfo),
    MissingCitation { label: String },
    MissingReference { label: String },
}

impl View for Message {
    type V = MessageView;

    open spec fn view(&self) -> MessageView {
        match self {
            Message::Error(i) => MessageView::Error(i@),
            Message::Warning(i) => MessageView::Warning(i@),
            Message::Badbox(i) => MessageView::Badbox(i@),
            Message::Info(i) => MessageView::Info(i@),
            Message::MissingCitation { label } => MessageView::MissingCitation { label: label@ },
            Message::MissingReference { label } => MessageView::MissingReference { label: label@ },
        }
    }
}

/// The record that a diagnostic wraps, if it wraps one.
pub open spec fn record_of(m: MessageView) -> Option<InfoView> {
    match m {
        MessageView::Error(i) => Some(i),
        MessageView::Warning(i) => Some(i),
        MessageView::Badbox(i) => Some(i),
        MessageView::Info(i) => Some(i),
        _ => None,
    }
}

/// `m` of the same kind, wrapping `i` in place of its record.
pub open spec fn with_record(m: MessageView, i: InfoView) -> MessageView {
    match m {
        MessageView::Error(_) => MessageView::Error(i),
        MessageView::Warning(_) => MessageView::Warning(i),
        MessageView::Badbox(_) => MessageView::Badbox(i),
        MessageView::Info(_) => MessageView::Info(i),
        _ => m,
    }
}

/// The component name that continuation lines of `m` are prefixed with:
/// only errors, warnings and informational records have one.
pub open spec fn merge_name(m: MessageView) -> Option<Seq<char>> {
    match m {
        MessageView::Error(i) => component_of(i.details),
        MessageView::Warning(i) => component_of(i.details),
        MessageView::Info(i) => component_of(i.details),
        _ => None,
    }
}

/// `m` with `text` added to the message of the record it wraps.
pub open spec fn extend_view(m: MessageView, text: Seq<char>) -> MessageView {
    match m {
        MessageView::Error(i) => MessageView::Error(
            InfoView { details: extend_field(i.details, text), ..i },
        ),
        MessageView::Warning(i) => MessageView::Warning(
            InfoView { details: extend_field(i.details, text), ..i },
        ),
        MessageView::Badbox(i) => MessageView::Badbox(
            InfoView { details: extend_field(i.details, text), ..i },
        ),
        MessageView::Info(i) => MessageView::Info(
            InfoView { details: extend_field(i.details, text), ..i },
        ),
        _ => m,
    }
}

/// The text that `to_str` gives for a diagnostic.
pub open spec fn text_of(m: MessageView) -> Seq<char> {
    match m {
        MessageView::MissingCitation { label } => "Missing citation: "@ + label,
        MessageView::MissingReference { label } => "Missing reference: "@ + label,
        _ => record_of(m).unwrap().full,
    }
}

impl Message {
    /// The record, for the kinds that wrap one.
    pub fn as_ref(&self) -> (r: Option<&MessageInfo>)
        ensures
            match r {
                Some(i) => record_of(self@) == Some(i@),
                None => record_of(self@) is None,
            },
    {
        match self {
            Message::Error(inner) => Some(inner),
            Message::Warning(inner) => Some(inner),
            Message::Badbox(inner) => Some(inner),
            Message::Info(inner) => Some(inner),
            _ => None,
        }
    }

    /// The record, for the kinds that wrap one, to be changed in place.
    pub fn as_mut(&mut self) -> (r: Option<&mut MessageInfo>)
        ensures
            match r {
                Some(i) => record_of(old(self)@) == Some(i@) && final(self)@ == with_record(
                    old(self)@,
                    final(i)@,
                ),
                None => record_of(old(self)@) is None && final(self)@ == old(self)@,
            },
    {
        match self {
            Message::Error(inner) => Some(inner),
            Message::Warning(inner) => Some(inner),
            Message::Badbox(inner) => Some(inner),
            Message::Info(inner) => Some(inner),
            _ => None,
        }
    }

    /// The component name of an error, warning or informational record.
    pub fn get_component_name(&self) -> (r: Option<&String>)
        ensures
            match r {
                Some(v) => merge_name(self@) == Some(v@),
                None => merge_name(self@) is None,
            },
    {
        match self {
            Message::Error(inner) => inner.get_component_name(),
            Message::Warning(inner) => inner.get_component_name(),
            Message::Info(inner) => inner.get_component_name(),
            _ => None,
        }
    }

    /// Adds a trailing context line to the wrapped record; a diagnostic that
    /// wraps none is left as it is.
    pub fn add_context(&mut self, line: String)
        ensures
            final(self)@ == match old(self)@ {
                MessageView::MissingCitation { .. } => old(self)@,
                MessageView::MissingReference { .. } => old(self)@,
                _ => with_record(
                    old(self)@,
                    InfoView {
                        context_lines: record_of(old(self)@).unwrap().context_lines.push(line@),
                        ..record_of(old(self)@).unwrap()
                    },
                ),
            },
    {
        match self {
            Message::Error(inner) => inner.add_context(line),
            Message::Warning(inner) => inner.add_context(line),
            Message::Badbox(inner) => inner.add_context(line),
            Message::Info(inner) => inner.add_context(line),
            _ => {},
        }
    }

    /// Adds `text` to the message of the wrapped record.
    pub fn extend_message(&mut self, text: &str)
        requires
            record_of(old(self)@) is Some,
        ensures
            final(self)@ == extend_view(old(self)@, text@),
    {
        match self {
            Message::Error(inner) => inner.extend_message(text),
            Message::Warning(inner) => inner.extend_message(text),
            Message::Badbox(inner) => inner.extend_message(text),
            Message::Info(inner) => inner.extend_message(text),
            _ => {},
        }
    }

    /// The matched text of a record, or a one-line description of a missing
    /// citation or reference.
    pub fn to_str(&self) -> (r: String)
        ensures
            r@ == text_of(self@),
    {
        match self {
            Message::Error(inner) => inner.full.clone(),
            Message::Warning(inner) => inner.full.clone(),
            Message::Info(inner) => inner.full.clone(),
            Message::Badbox(inner) => inner.full.clone(),
            Message::MissingCitation { label } => "Missing citation: ".to_owned().concat(label.as_str()),
            Message::MissingReference { label } => "Missing reference: ".to_owned().concat(label.as_str()),
        }
    }
}

/// The number of diagnostics in `ms` of which `p` holds.
pub open spec fn count_where(ms: Seq<MessageView>, p: spec_fn(MessageView) -> bool) -> nat
    decreases ms.len(),
{
    if ms.len() == 0 {
        0
    } else {
        count_where(ms.drop_last(), p) + if p(ms.last()) {
            1nat
        } else {
            0nat
        }
    }
}

pub proof fn lemma_count_push(ms: Seq<MessageView>, p: spec_fn(MessageView) -> bool, x: MessageView)
    ensures
        count_where(ms.push(x), p) == count_where(ms, p) + if p(x) {
            1nat
        } else {
            0nat
        },
        count_where(ms, p) <= ms.len(),
    decreases ms.len(),
{
    assert(ms.push(x).drop_last() =~= ms);
    if ms.len() > 0 {
        lemma_count_push(ms.drop_last(), p, ms.last());
        assert(ms.drop_last().push(ms.last()) =~= ms);
    }
}

pub proof fn lemma_count_update_last(ms: Seq<MessageView>, p: spec_fn(MessageView) -> bool, y: MessageView)
    requires
        ms.len() > 0,
        p(y) == p(ms.last()),
    ensures
        count_where(ms.update(ms.len() - 1, y), p) == count_where(ms, p),
{
    assert(ms.update(ms.len() - 1, y).drop_last() =~= ms.drop_last());
}

pub open spec fn is_error(m: MessageView) -> bool {
    m is Error
}

pub open spec fn is_warning(m: MessageView) -> bool {
    m is Warning
}

pub open spec fn is_badbox(m: MessageView) -> bool {
    m is Badbox
}

pub open spec fn is_info(m: MessageView) -> bool {
    m is Info
}

pub open spec fn is_missing_reference(m: MessageView) -> bool {
    m is MissingReference
}

pub open spec fn is_missing_citation(m: MessageView) -> bool {
    m is MissingCitation
}

/// The counts and diagnostics of one pass over a build log.
#[derive(Clone, Debug)]
pub struct BuildReport {
    pub errors: usize,
    pub warnings: usize,
    pub badboxes: usize,
    pub info: usize,
    pub missing_references: usize,
    pub missing_citations: usize,
    pub messages: Vec<Message>,
}

impl BuildReport {
    /// The diagnostics, in the order they were found.
    pub open spec fn diagnostics(&self) -> Seq<MessageView> {
        self.messages@.map_values(|m: Message| m@)
    }

    /// Each counter is the number of diagnostics of its kind.
    pub open spec fn wf(&self) -> bool {
        &&& self.errors == count_where(self.diagnostics(), |m| is_error(m))
        &&& self.warnings == count_where(self.diagnostics(), |m| is_warning(m))
        &&& self.badboxes == count_where(self.diagnostics(), |m| is_badbox(m))
        &&& self.info == count_where(self.diagnostics(), |m| is_info(m))
        &&& self.missing_references == count_where(self.diagnostics(), |m| is_missing_reference(m))
        &&& self.missing_citations == count_where(self.diagnostics(), |m| is_missing_citation(m))
    }

    /// An empty report.
    pub fn new() -> (r: BuildReport)
        ensures
            r.wf(),
            r.diagnostics() == Seq::<MessageView>::empty(),
    {
        let r = BuildReport {
            messages: Vec::new(),
            errors: 0,
            warnings: 0,
            badboxes: 0,
            info: 0,
            missing_citations: 0,
            missing_references: 0,
        };
        assert(r.diagnostics() =~= Seq::<MessageView>::empty());
        r
    }

    /// Appends a diagnostic and counts it under its kind.
    pub fn add(&mut self, m: Message)
        requires
            old(self).wf(),
        ensures
            final(self).wf(),
            final(self).diagnostics() == old(self).diagnostics().push(m@),
    {
        let ghost ms = self.diagnostics();
        let ghost v = m@;
        let kind: u8 = match &m {
            Message::Error(_) => 0,
            Message::Warning(_) => 1,
            Message::Badbox(_) => 2,
            Message::Info(_) => 3,
            Message::MissingReference { .. } => 4,
            Message::MissingCitation { .. } => 5,
        };
        self.messages.push(m);
        let n = self.messages.len();
        proof {
            assert(self.diagnostics() =~= ms.push(v));
            lemma_count_push(ms, |m| is_error(m), v);
            lemma_count_push(ms, |m| is_warning(m), v);
            lemma_count_push(ms, |m| is_badbox(m), v);
            lemma_count_push(ms, |m| is_info(m), v);
            lemma_count_push(ms, |m| is_missing_reference(m), v);
            lemma_count_push(ms, |m| is_missing_citation(m), v);
        }
        if kind == 0 {
            self.errors = self.errors + 1;
        } else if kind == 1 {
            self.warnings = self.warnings + 1;
        } else if kind == 2 {
            self.badboxes = self.badboxes + 1;
        } else if kind == 3 {
            self.info = self.info + 1;
        } else if kind == 4 {
            self.missing_references = self.missing_references + 1;
        } else {
            self.missing_citations = self.missing_citations + 1;
        }
    }

    /// Adds `text` to the message of the last diagnostic.
    pub fn extend_last(&mut self, text: &str)
        requires
            old(self).wf(),
            old(self).messages@.len() > 0,
            merge_name(old(self).diagnostics().last()) is Some,
        ensures
            final(self).wf(),
            final(self).diagnostics() == old(self).diagnostics().update(
                old(self).diagnostics().len() - 1,
                extend_view(old(self).diagnostics().last(), text@),
            ),
    {
        let ghost ms = self.diagnostics();
        let last = self.messages.len() - 1;
        let mut m = self.messages.remove(last);
        m.extend_message(text);
        self.messages.push(m);
        proof {
            let y = extend_view(ms.last(), text@);
            assert(self.diagnostics() =~= ms.update(ms.len() - 1, y));
            lemma_count_update_last(ms, |m| is_error(m), y);
            lemma_count_update_last(ms, |m| is_warning(m), y);
            lemma_count_update_last(ms, |m| is_badbox(m), y);
            lemma_count_update_last(ms, |m| is_info(m), y);
            lemma_count_update_last(ms, |m| is_missing_reference(m), y);
            lemma_count_update_last(ms, |m| is_missing_citation(m), y);
        }
    }
}

} // verus!
