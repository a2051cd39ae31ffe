//! `ActionError`: the error type of an action binary, rendered as a GitHub
//! Actions workflow command (`::error::`, `::warning::`, `::notice::`) with
//! optional file/line/column context.
use vstd::prelude::*;

use crate::text::{
    decimal, lemma_decimal_single_line, lemma_single_line_add, push_char, push_decimal,
    single_line,
};

verus! {

/// How one character of a message body is written in a workflow command.
/// `%` is escaped too, so that an escape sequence already present in the
/// input cannot be mistaken for one the encoder produced.
pub open spec fn message_escape(c: char) -> Seq<char> {
    if c == '%' {
        seq!['%', '2', '5']
    } else if c == '\n' {
        seq!['%', '0', 'A']
    } else if c == '\r' {
        seq!['%', '0', 'D']
    } else {
        seq![c]
    }
}

/// How one character of a property value (title, file) is written: as in a
/// message, and `:` and `,`, the delimiters of the property list, escaped too.
pub open spec fn property_escape(c: char) -> Seq<char> {
    if c == ':' {
        seq!['%', '3', 'A']
    } else if c == ',' {
        seq!['%', '2', 'C']
    } else {
        message_escape(c)
    }
}

/// The encoded form of a message body.
pub open spec fn encoded_message(s: Seq<char>) -> Seq<char> {
    s.flat_map(|c: char| message_escape(c))
}

/// The encoded form of a property value.
pub open spec fn encoded_property(s: Seq<char>) -> Seq<char> {
    s.flat_map(|c: char| property_escape(c))
}

/// Undoes the percent escapes that the encoders write (`%25`, `%0A`, `%0D`,
/// `%3A`, `%2C`); every other character is kept.
pub open spec fn percent_decoded(s: Seq<char>) -> Seq<char>
    decreases s.len(),
{
    if s.len() == 0 {
        seq![]
    } else if s.len() >= 3 && s[0] == '%' && s[1] == '2' && s[2] == '5' {
        seq!['%'] + percent_decoded(s.skip(3))
    } else if s.len() >= 3 && s[0] == '%' && s[1] == '0' && s[2] == 'A' {
        seq!['\n'] + percent_decoded(s.skip(3))
    } else if s.len() >= 3 && s[0] == '%' && s[1] == '0' && s[2] == 'D' {
        seq!['\r'] + percent_decoded(s.skip(3))
    } else if s.len() >= 3 && s[0] == '%' && s[1] == '3' && s[2] == 'A' {
        seq![':'] + percent_decoded(s.skip(3))
    } else if s.len() >= 3 && s[0] == '%' && s[1] == '2' && s[2] == 'C' {
        seq![','] + percent_decoded(s.skip(3))
    } else {
        seq![s[0]] + percent_decoded(s.drop_first())
    }
}

/// Optional context attached to an action error; GitHub renders whatever is
/// provided.
#[derive(Debug, Clone, PartialEq, Eq)]
pub struct ErrorContext {
    pub title: Option<String>,
    pub file: Option<String>,
    pub line: Option<u32>,
    pub col: Option<u32>,
    pub end_line: Option<u32>,
    pub end_col: Option<u32>,
}

/// All errors an action binary can surface, by workflow-command level.
#[derive(Debug, Clone, PartialEq, Eq)]
pub enum ActionError {
    /// `::error::`: the action fails.
    Error { message: String, source: Option<ErrorContext> },
    /// `::warning::`: non-fatal, shown as a warning annotation.
    Warning { message: String, source: Option<ErrorContext> },
    /// `::notice::`: informational annotation.
    Notice { message: String, source: Option<ErrorContext> },
}

/// Convenience alias.
pub type ActionResult<T> = Result<T, ActionError>;

/// The `key=value` property for an optional text field, value encoded.
pub open spec fn text_property(key: Seq<char>, value: Option<String>) -> Seq<Seq<char>> {
    match value {
        Some(v) => seq![key + encoded_property(v@)],
        None => seq![],
    }
}

/// The `key=value` property for an optional number field, in decimal.
pub open spec fn number_property(key: Seq<char>, value: Option<u32>) -> Seq<Seq<char>> {
    match value {
        Some(n) => seq![key + decimal(n as nat)],
        None => seq![],
    }
}

/// The properties of a context, in the order title, file, line, col,
/// endLine, endColumn; absent fields give no property.
pub open spec fn context_properties(ctx: ErrorContext) -> Seq<Seq<char>> {
    text_property("title="@, ctx.title) + text_property("file="@, ctx.file) + number_property(
        "line="@,
        ctx.line,
    ) + number_property("col="@, ctx.col) + number_property("endLine="@, ctx.end_line)
        + number_property("endColumn="@, ctx.end_col)
}

/// The parts joined with the separator between consecutive parts.
pub open spec fn joined(parts: Seq<Seq<char>>, sep: Seq<char>) -> Seq<char>
    decreases parts.len(),
{
    if parts.len() == 0 {
        seq![]
    } else if parts.len() == 1 {
        parts[0]
    } else {
        joined(parts.drop_last(), sep) + sep + parts.last()
    }
}

/// The text between the level and the second `::`: empty without context or
/// without any property, else a space and the comma-separated properties.
pub open spec fn properties_text(context: Option<ErrorContext>) -> Seq<char> {
    match context {
        None => seq![],
        Some(ctx) => {
            let parts = context_properties(ctx);
            if parts.len() == 0 {
                seq![]
            } else {
                seq![' '] + joined(parts, seq![','])
            }
        },
    }
}

/// `::<level> <key>=<value>,...::<encoded message>`.
pub open spec fn workflow_command(
    level: Seq<char>,
    message: Seq<char>,
    context: Option<ErrorContext>,
) -> Seq<char> {
    seq![':', ':'] + level + properties_text(context) + seq![':', ':'] + encoded_message(message)
}

impl ActionError {
    /// The workflow-command level of this error.
    pub open spec fn level(&self) -> Seq<char> {
        match self {
            ActionError::Error { .. } => "error"@,
            ActionError::Warning { .. } => "warning"@,
            ActionError::Notice { .. } => "notice"@,
        }
    }

    /// The message this error carries.
    pub open spec fn message_text(&self) -> Seq<char> {
        match self {
            ActionError::Error { message, .. } => message@,
            ActionError::Warning { message, .. } => message@,
            ActionError::Notice { message, .. } => message@,
        }
    }

    /// The context attached to this error, if any.
    pub open spec fn context(&self) -> Option<ErrorContext> {
        match self {
            ActionError::Error { source, .. } => *source,
            ActionError::Warning { source, .. } => *source,
            ActionError::Notice { source, .. } => *source,
        }
    }

    /// A fatal error with no context.
    pub fn error(message: &str) -> (r: Self)
        ensures
            r is Error,
            r.message_text() == message@,
            r.context() is None,
    {
        ActionError::Error { message: String::from_str(message), source: None }
    }

    /// A warning with no context.
    pub fn warning(message: &str) -> (r: Self)
        ensures
            r is Warning,
            r.message_text() == message@,
            r.context() is None,
    {
        ActionError::Warning { message: String::from_str(message), source: None }
    }

    /// A notice with no context.
    pub fn notice(message: &str) -> (r: Self)
        ensures
            r is Notice,
            r.message_text() == message@,
            r.context() is None,
    {
        ActionError::Notice { message: String::from_str(message), source: None }
    }

    /// The same error with `context` attached, replacing any earlier context.
    pub fn with_context(self, context: ErrorContext) -> (r: Self)
        ensures
            r is Error <==> self is Error,
            r is Warning <==> self is Warning,
            r is Notice <==> self is Notice,
            r.level() == self.level(),
            r.message_text() == self.message_text(),
            r.context() == Some(context),
    {
        match self {
            ActionError::Error { message, .. } => ActionError::Error {
                message,
                source: Some(context),
            },
            ActionError::Warning { message, .. } => ActionError::Warning {
                message,
                source: Some(context),
            },
            ActionError::Notice { message, .. } => ActionError::Notice {
                message,
                source: Some(context),
            },
        }
    }

    /// Renders this error as one workflow-command line.
    pub fn as_workflow_command(&self) -> (r: String)
        ensures
            r@ == workflow_command(self.level(), self.message_text(), self.context()),
    {
        let (level, message, source) = match self {
            ActionError::Error { message, source } => ("error", message, source),
            ActionError::Warning { message, source } => ("warning", message, source),
            ActionError::Notice { message, source } => ("notice", message, source),
        };
        let mut out = String::new();
        out.append("::");
        out.append(level);
        let ghost before_props = out@;
        match source {
            Some(ctx) => {
                let parts = context_parts(ctx);
                if parts.len() > 0 {
                    push_char(&mut out, ' ');
                    let joined_parts = join(&parts, ",");
                    out.append(joined_parts.as_str());
                    proof {
                        reveal_strlit(",");
                        assert(","@ =~= seq![',']);
                    }
                }
            },
            None => {},
        }
        assert(out@ =~= before_props + properties_text(self.context()));
        out.append("::");
        let body = encode_message(message.as_str());
        out.append(body.as_str());
        proof {
            reveal_strlit("::");
            assert("::"@ =~= seq![':', ':']);
        }
        assert(out@ =~= workflow_command(self.level(), self.message_text(), self.context()));
        out
    }

    /// Whether this error should make the step exit non-zero: only the
    /// `Error` level is fatal.
    pub fn is_fatal(&self) -> (r: bool)
        ensures
            r <==> self is Error,
    {
        match self {
            ActionError::Error { .. } => true,
            _ => false,
        }
    }

    /// The human-readable form of this error: its message.
    pub fn to_string(&self) -> (r: String)
        ensures
            r@ == self.message_text(),
    {
        match self {
            ActionError::Error { message, .. } => message.clone(),
            ActionError::Warning { message, .. } => message.clone(),
            ActionError::Notice { message, .. } => message.clone(),
        }
    }
}

impl ErrorContext {
    /// The human-readable form of a context: `title=<title>` when a title is
    /// present, empty otherwise.
    pub fn to_string(&self) -> (r: String)
        ensures
            r@ == match self.title {
                Some(t) => "title="@ + t@,
                None => Seq::<char>::empty(),
            },
    {
        let mut out = String::new();
        match &self.title {
            Some(t) => {
                out.append("title=");
                out.append(t.as_str());
            },
            None => {},
        }
        out
    }
}

impl Default for ErrorContext {
    fn default() -> (r: Self)
        ensures
            r.title is None,
            r.file is None,
            r.line is None,
            r.col is None,
            r.end_line is None,
            r.end_col is None,
    {
        ErrorContext { title: None, file: None, line: None, col: None, end_line: None, end_col: None }
    }
}

/// Appends the three characters of an escape sequence.
fn push_escape(out: &mut String, a: char, b: char, c: char)
    ensures
        final(out)@ == old(out)@ + seq![a, b, c],
{
    push_char(out, a);
    push_char(out, b);
    push_char(out, c);
    assert(final(out)@ =~= old(out)@ + seq![a, b, c]);
}

/// Encodes a message body for the workflow-command format.
pub fn encode_message(s: &str) -> (r: String)
    ensures
        r@ == encoded_message(s@),
{
    broadcast use vstd::string::group_string_axioms;

    let ghost f = |c: char| message_escape(c);
    let mut out = String::new();
    for c in it: s.chars()
        invariant
            it.seq() == s@,
            f == (|c: char| message_escape(c)),
            out@ == s@.take(it.index() as int).flat_map(f),
    {
        proof {
            s@.lemma_flat_map_take_append(f, it.index() as int);
        }
        let ghost before = out@;
        if c == '%' {
            push_escape(&mut out, '%', '2', '5');
        } else if c == '\n' {
            push_escape(&mut out, '%', '0', 'A');
        } else if c == '\r' {
            push_escape(&mut out, '%', '0', 'D');
        } else {
            push_char(&mut out, c);
        }
        assert(f(c) == message_escape(c));
        assert(out@ =~= before + f(c));
    }
    assert(s@.take(s@.len() as int) =~= s@);
    out
}

/// Encodes a property value (title, file) for the workflow-command format.
pub fn encode_property(s: &str) -> (r: String)
    ensures
        r@ == encoded_property(s@),
{
    broadcast use vstd::string::group_string_axioms;

    let ghost f = |c: char| property_escape(c);
    let mut out = String::new();
    for c in it: s.chars()
        invariant
            it.seq() == s@,
            f == (|c: char| property_escape(c)),
            out@ == s@.take(it.index() as int).flat_map(f),
    {
        proof {
            s@.lemma_flat_map_take_append(f, it.index() as int);
        }
        let ghost before = out@;
        if c == ':' {
            push_escape(&mut out, '%', '3', 'A');
        } else if c == ',' {
            push_escape(&mut out, '%', '2', 'C');
        } else if c == '%' {
            push_escape(&mut out, '%', '2', '5');
        } else if c == '\n' {
            push_escape(&mut out, '%', '0', 'A');
        } else if c == '\r' {
            push_escape(&mut out, '%', '0', 'D');
        } else {
            push_char(&mut out, c);
        }
        assert(f(c) == property_escape(c));
        assert(out@ =~= before + f(c));
    }
    assert(s@.take(s@.len() as int) =~= s@);
    out
}

/// `key` followed by the encoded text value.
fn text_part(key: &str, value: &String) -> (r: String)
    ensures
        r@ == key@ + encoded_property(value@),
{
    let mut out = String::from_str(key);
    let v = encode_property(value.as_str());
    out.append(v.as_str());
    out
}

/// `key` followed by the number in decimal.
fn number_part(key: &str, value: u32) -> (r: String)
    ensures
        r@ == key@ + decimal(value as nat),
{
    let mut out = String::from_str(key);
    push_decimal(&mut out, value as u64);
    out
}

/// The `key=value` properties of a context, in workflow-command order.
pub fn context_parts(ctx: &ErrorContext) -> (r: Vec<String>)
    ensures
        r.deep_view() == context_properties(*ctx),
{
    let mut parts: Vec<String> = Vec::new();
    let ghost mut expected: Seq<Seq<char>> = seq![];
    if let Some(title) = &ctx.title {
        parts.push(text_part("title=", title));
    }
    proof {
        expected = text_property("title="@, ctx.title);
    }
    assert(parts.deep_view() =~= expected);
    if let Some(file) = &ctx.file {
        parts.push(text_part("file=", file));
    }
    proof {
        expected = expected + text_property("file="@, ctx.file);
    }
    assert(parts.deep_view() =~= expected);
    if let Some(line) = ctx.line {
        parts.push(number_part("line=", line));
    }
    proof {
        expected = expected + number_property("line="@, ctx.line);
    }
    assert(parts.deep_view() =~= expected);
    if let Some(col) = ctx.col {
        parts.push(number_part("col=", col));
    }
    proof {
        expected = expected + number_property("col="@, ctx.col);
    }
    assert(parts.deep_view() =~= expected);
    if let Some(end_line) = ctx.end_line {
        parts.push(number_part("endLine=", end_line));
    }
    proof {
        expected = expected + number_property("endLine="@, ctx.end_line);
    }
    assert(parts.deep_view() =~= expected);
    if let Some(end_col) = ctx.end_col {
        parts.push(number_part("endColumn=", end_col));
    }
    proof {
        expected = expected + number_property("endColumn="@, ctx.end_col);
    }
    assert(parts.deep_view() =~= expected);
    parts
}

/// The strings joined with `sep` between consecutive ones.
pub fn join(parts: &Vec<String>, sep: &str) -> (r: String)
    ensures
        r@ == joined(parts.deep_view(), sep@),
{
    let ghost all = parts.deep_view();
    let mut out = String::new();
    let mut i: usize = 0;
    while i < parts.len()
        invariant
            all == parts.deep_view(),
            i <= parts.len(),
            out@ == joined(all.take(i as int), sep@),
        decreases parts.len() - i,
    {
        if i > 0 {
            out.append(sep);
        }
        out.append(parts[i].as_str());
        assert(all.take(i + 1).drop_last() =~= all.take(i as int));
        assert(all[i as int] == parts[i as int]@);
        i = i + 1;
    }
    assert(all.take(parts.len() as int) =~= all);
    out
}

/// A flat map unfolds at the front.
proof fn lemma_flat_map_front(s: Seq<char>, f: spec_fn(char) -> Seq<char>)
    requires
        s.len() > 0,
    ensures
        s.flat_map(f) == f(s[0]) + s.drop_first().flat_map(f),
{
    assert(s.map_values(f).drop_first() =~= s.drop_first().map_values(f));
    assert(s.map_values(f).first() == f(s[0]));
}

/// Decoding an escaped character followed by more text gives the character
/// followed by the decoding of the rest.
proof fn lemma_decode_escaped(c: char, rest: Seq<char>)
    ensures
        percent_decoded(property_escape(c) + rest) == seq![c] + percent_decoded(rest),
        percent_decoded(message_escape(c) + rest) == seq![c] + percent_decoded(rest),
{
    let t = property_escape(c) + rest;
    let u = message_escape(c) + rest;
    if c == '%' || c == '\n' || c == '\r' || c == ':' || c == ',' {
        assert(t.skip(3) =~= rest);
    }
    if c == '%' || c == '\n' || c == '\r' {
        assert(u.skip(3) =~= rest);
    } else {
        assert(u.drop_first() =~= rest);
    }
    if !(c == '%' || c == '\n' || c == '\r' || c == ':' || c == ',') {
        assert(t.drop_first() =~= rest);
    }
}

/// Law: percent-decoding undoes the message encoding, so distinct messages
/// never render to the same body (escaping `%` first is what makes this hold).
pub proof fn lemma_message_encoding_is_decodable(s: Seq<char>)
    ensures
        percent_decoded(encoded_message(s)) == s,
    decreases s.len(),
{
    if s.len() > 0 {
        let f = |c: char| message_escape(c);
        lemma_flat_map_front(s, f);
        lemma_message_encoding_is_decodable(s.drop_first());
        lemma_decode_escaped(s[0], encoded_message(s.drop_first()));
        assert(seq![s[0]] + s.drop_first() =~= s);
    } else {
        assert(encoded_message(s) =~= seq![]);
    }
}

/// Law: percent-decoding undoes the property encoding.
pub proof fn lemma_property_encoding_is_decodable(s: Seq<char>)
    ensures
        percent_decoded(encoded_property(s)) == s,
    decreases s.len(),
{
    if s.len() > 0 {
        let f = |c: char| property_escape(c);
        lemma_flat_map_front(s, f);
        lemma_property_encoding_is_decodable(s.drop_first());
        lemma_decode_escaped(s[0], encoded_property(s.drop_first()));
        assert(seq![s[0]] + s.drop_first() =~= s);
    } else {
        assert(encoded_property(s) =~= seq![]);
    }
}

/// Law: the message encoding is injective.
pub proof fn lemma_message_encoding_injective(a: Seq<char>, b: Seq<char>)
    requires
        encoded_message(a) == encoded_message(b),
    ensures
        a == b,
{
    lemma_message_encoding_is_decodable(a);
    lemma_message_encoding_is_decodable(b);
}

/// Law: an encoded message holds no line break, so the runner never splits
/// the annotation.
pub proof fn lemma_encoded_message_single_line(s: Seq<char>)
    ensures
        single_line(encoded_message(s)),
    decreases s.len(),
{
    if s.len() > 0 {
        lemma_flat_map_front(s, |c: char| message_escape(c));
        lemma_encoded_message_single_line(s.drop_first());
        lemma_single_line_add(message_escape(s[0]), encoded_message(s.drop_first()));
    } else {
        assert(encoded_message(s) =~= seq![]);
    }
}

/// No character of an encoded property value is a line break, `:` or `,`.
pub open spec fn free_of_delimiters(s: Seq<char>) -> bool {
    forall|i: int|
        0 <= i < s.len() ==> #[trigger] s[i] != '\n' && s[i] != '\r' && s[i] != ':' && s[i] != ','
}

/// Law: an encoded property value holds no line break and neither of the
/// property-list delimiters `:` and `,`.
pub proof fn lemma_encoded_property_free_of_delimiters(s: Seq<char>)
    ensures
        free_of_delimiters(encoded_property(s)),
    decreases s.len(),
{
    if s.len() > 0 {
        lemma_flat_map_front(s, |c: char| property_escape(c));
        lemma_encoded_property_free_of_delimiters(s.drop_first());
        let a = property_escape(s[0]);
        let b = encoded_property(s.drop_first());
        assert forall|i: int| 0 <= i < (a + b).len() implies #[trigger] (a + b)[i] != '\n' && (a
            + b)[i] != '\r' && (a + b)[i] != ':' && (a + b)[i] != ',' by {
            if i < a.len() {
                assert((a + b)[i] == a[i]);
            } else {
                assert((a + b)[i] == b[i - a.len()]);
            }
        }
    } else {
        assert(encoded_property(s) =~= seq![]);
    }
}

proof fn lemma_joined_single_line(parts: Seq<Seq<char>>, sep: Seq<char>)
    requires
        single_line(sep),
        forall|i: int| 0 <= i < parts.len() ==> single_line(#[trigger] parts[i]),
    ensures
        single_line(joined(parts, sep)),
    decreases parts.len(),
{
    if parts.len() > 1 {
        lemma_joined_single_line(parts.drop_last(), sep);
        lemma_single_line_add(joined(parts.drop_last(), sep), sep);
        lemma_single_line_add(joined(parts.drop_last(), sep) + sep, parts.last());
    }
}

proof fn lemma_key_value_single_line(key: Seq<char>, value: Seq<char>)
    requires
        single_line(key),
        single_line(value),
    ensures
        single_line(key + value),
{
    lemma_single_line_add(key, value);
}

proof fn lemma_context_properties_single_line(ctx: ErrorContext)
    ensures
        forall|i: int|
            0 <= i < context_properties(ctx).len() ==> single_line(
                #[trigger] context_properties(ctx)[i],
            ),
{
    reveal_strlit("title=");
    reveal_strlit("file=");
    reveal_strlit("line=");
    reveal_strlit("col=");
    reveal_strlit("endLine=");
    reveal_strlit("endColumn=");
    let keys = seq!["title="@, "file="@, "line="@, "col="@, "endLine="@, "endColumn="@];
    assert forall|k: int| 0 <= k < 6 implies single_line(#[trigger] keys[k]) by {}
    if let Some(t) = ctx.title {
        lemma_encoded_property_free_of_delimiters(t@);
        lemma_key_value_single_line("title="@, encoded_property(t@));
    }
    if let Some(f) = ctx.file {
        lemma_encoded_property_free_of_delimiters(f@);
        lemma_key_value_single_line("file="@, encoded_property(f@));
    }
    if let Some(n) = ctx.line {
        lemma_decimal_single_line(n as nat);
        lemma_key_value_single_line("line="@, decimal(n as nat));
    }
    if let Some(n) = ctx.col {
        lemma_decimal_single_line(n as nat);
        lemma_key_value_single_line("col="@, decimal(n as nat));
    }
    if let Some(n) = ctx.end_line {
        lemma_decimal_single_line(n as nat);
        lemma_key_value_single_line("endLine="@, decimal(n as nat));
    }
    if let Some(n) = ctx.end_col {
        lemma_decimal_single_line(n as nat);
        lemma_key_value_single_line("endColumn="@, decimal(n as nat));
    }
    let p = context_properties(ctx);
    assert forall|i: int| 0 <= i < p.len() implies single_line(#[trigger] p[i]) by {
        let a = text_property("title="@, ctx.title);
        let b = text_property("file="@, ctx.file);
        let c = number_property("line="@, ctx.line);
        let d = number_property("col="@, ctx.col);
        let e = number_property("endLine="@, ctx.end_line);
        let g = number_property("endColumn="@, ctx.end_col);
        assert(p == a + b + c + d + e + g);
        if i < a.len() {
            assert(p[i] == a[i]);
        } else if i < a.len() + b.len() {
            assert(p[i] == b[i - a.len()]);
        } else if i < a.len() + b.len() + c.len() {
            assert(p[i] == c[i - a.len() - b.len()]);
        } else if i < a.len() + b.len() + c.len() + d.len() {
            assert(p[i] == d[i - a.len() - b.len() - c.len()]);
        } else if i < a.len() + b.len() + c.len() + d.len() + e.len() {
            assert(p[i] == e[i - a.len() - b.len() - c.len() - d.len()]);
        } else {
            assert(p[i] == g[i - a.len() - b.len() - c.len() - d.len() - e.len()]);
        }
    }
}

/// Law: every workflow command that an `ActionError` renders is a single
/// line, whatever its message and context hold.
pub proof fn lemma_workflow_command_single_line(e: ActionError)
    ensures
        single_line(workflow_command(e.level(), e.message_text(), e.context())),
{
    reveal_strlit("error");
    reveal_strlit("warning");
    reveal_strlit("notice");
    let level = e.level();
    assert(single_line(level));
    let props = properties_text(e.context());
    if let Some(ctx) = e.context() {
        let parts = context_properties(ctx);
        if parts.len() > 0 {
            lemma_context_properties_single_line(ctx);
            lemma_joined_single_line(parts, seq![',']);
            lemma_single_line_add(seq![' '], joined(parts, seq![',']));
        }
    }
    assert(single_line(props));
    lemma_encoded_message_single_line(e.message_text());
    lemma_single_line_add(seq![':', ':'], level);
    lemma_single_line_add(seq![':', ':'] + level, props);
    lemma_single_line_add(seq![':', ':'] + level + props, seq![':', ':']);
    lemma_single_line_add(
        seq![':', ':'] + level + props + seq![':', ':'],
        encoded_message(e.message_text()),
    );
}

/// Law: a context with every field set renders its properties in the order
/// title, file, line, col, endLine, endColumn, separated by commas, after a
/// space; a context with no field set renders nothing.
pub proof fn lemma_context_property_order(ctx: ErrorContext)
    ensures
        ctx.title is None && ctx.file is None && ctx.line is None && ctx.col is None
            && ctx.end_line is None && ctx.end_col is None ==> properties_text(Some(ctx))
            == Seq::<char>::empty(),
        ctx.title is Some && ctx.file is Some && ctx.line is Some && ctx.col is Some
            && ctx.end_line is Some && ctx.end_col is Some ==> properties_text(Some(ctx)) == seq![
            ' ',
        ] + ("title="@ + encoded_property(ctx.title.unwrap()@)) + seq![','] + ("file="@
            + encoded_property(ctx.file.unwrap()@)) + seq![','] + ("line="@ + decimal(
            ctx.line.unwrap() as nat,
        )) + seq![','] + ("col="@ + decimal(ctx.col.unwrap() as nat)) + seq![','] + ("endLine="@
            + decimal(ctx.end_line.unwrap() as nat)) + seq![','] + ("endColumn="@ + decimal(
            ctx.end_col.unwrap() as nat,
        )),
{
    let p = context_properties(ctx);
    if ctx.title is None && ctx.file is None && ctx.line is None && ctx.col is None
        && ctx.end_line is None && ctx.end_col is None {
        assert(p =~= Seq::<Seq<char>>::empty());
    }
    if ctx.title is Some && ctx.file is Some && ctx.line is Some && ctx.col is Some
        && ctx.end_line is Some && ctx.end_col is Some {
        let a = "title="@ + encoded_property(ctx.title.unwrap()@);
        let b = "file="@ + encoded_property(ctx.file.unwrap()@);
        let c = "line="@ + decimal(ctx.line.unwrap() as nat);
        let d = "col="@ + decimal(ctx.col.unwrap() as nat);
        let e = "endLine="@ + decimal(ctx.end_line.unwrap() as nat);
        let g = "endColumn="@ + decimal(ctx.end_col.unwrap() as nat);
        let sep = seq![','];
        lemma_joined_six(a, b, c, d, e, g, sep);
        assert(p =~= seq![a, b, c, d, e, g]);
    }
}

proof fn lemma_joined_six(
    a: Seq<char>,
    b: Seq<char>,
    c: Seq<char>,
    d: Seq<char>,
    e: Seq<char>,
    g: Seq<char>,
    sep: Seq<char>,
)
    ensures
        joined(seq![a, b, c, d, e, g], sep) == a + sep + b + sep + c + sep + d + sep + e + sep + g,
{
    assert(seq![a, b, c, d, e, g].drop_last() =~= seq![a, b, c, d, e]);
    assert(seq![a, b, c, d, e].drop_last() =~= seq![a, b, c, d]);
    assert(seq![a, b, c, d].drop_last() =~= seq![a, b, c]);
    assert(seq![a, b, c].drop_last() =~= seq![a, b]);
    assert(seq![a, b].drop_last() =~= seq![a]);
    assert(joined(seq![a], sep) == a);
    assert(joined(seq![a, b], sep) == a + sep + b);
    assert(joined(seq![a, b, c], sep) == a + sep + b + sep + c);
    assert(joined(seq![a, b, c, d], sep) == a + sep + b + sep + c + sep + d);
    assert(joined(seq![a, b, c, d, e], sep) == a + sep + b + sep + c + sep + d + sep + e);
}

} // verus!
