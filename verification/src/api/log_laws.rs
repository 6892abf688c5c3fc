//! What holds of every log level.
use crate::api::log_stream::{parse_log_level, EventLevel, LogFields, LogLevel, LogMessage};
use crate::text;
use crate::text_laws;
use crate::text_laws::alike;
use vstd::prelude::*;

verus! {

/// A level is read from its word in any case, `warn` is a warning too, and any
/// other word means information.
pub proof fn law_level_words(s: &str, level: LogLevel)
    requires
        call_ensures(parse_log_level, (s,), level),
    ensures
        level is Debug <==> alike(s@, "debug"@),
        level is Warning <==> alike(s@, "warning"@) || alike(s@, "warn"@),
        level is Error <==> alike(s@, "error"@),
        level is Silent <==> alike(s@, "silent"@),
{
    reveal_strlit("debug");
    reveal_strlit("warning");
    reveal_strlit("warn");
    reveal_strlit("error");
    reveal_strlit("silent");
    lemma_word(s@, "debug"@);
    lemma_word(s@, "warning"@);
    lemma_word(s@, "warn"@);
    lemma_word(s@, "error"@);
    lemma_word(s@, "silent"@);
    assert("debug"@[0] == 'd' && "warning"@[0] == 'w' && "warn"@[0] == 'w' && "error"@[0] == 'e'
        && "silent"@[0] == 's');
}

spec fn small(w: Seq<char>) -> bool {
    forall|i: int| 0 <= i < w.len() ==> 'a' <= #[trigger] w[i] && w[i] <= 'z'
}

proof fn lemma_word(s: Seq<char>, w: Seq<char>)
    requires
        small(w),
    ensures
        alike(s, w) <==> text::ascii_lower(s) == w,
{
    text_laws::lemma_alike(s, w);
    assert(text::ascii_lower(w) =~= w);
}

/// A message passes a filter when it is at least as grave as the filter asks:
/// debugging, information, warning, error, and nothing at all.
pub proof fn law_gravity(i: int, j: int, b: bool, order: Seq<LogLevel>)
    requires
        order == seq![
            LogLevel::Debug,
            LogLevel::Info,
            LogLevel::Warning,
            LogLevel::Error,
            LogLevel::Silent,
        ],
        0 <= i < 5,
        0 <= j < 5,
        call_ensures(LogLevel::passes, (order[i], order[j]), b),
    ensures
        b <==> i >= j,
{
}

/// An event's level is the level of the same name, and traces count as
/// debugging.
pub proof fn law_event_levels(e: EventLevel, level: LogLevel)
    requires
        call_ensures(LogLevel::of_event, (e,), level),
    ensures
        level is Debug <==> e is Trace || e is Debug,
        level is Info <==> e is Info,
        level is Warning <==> e is Warn,
        level is Error <==> e is Error,
{
}

/// A message is sent with its level's word and its own text.
pub proof fn law_message_fields(m: &LogMessage, f: LogFields)
    requires
        call_ensures(LogMessage::fields, (m,), f),
    ensures
        m.level is Debug ==> f.kind@ == "debug"@,
        m.level is Info ==> f.kind@ == "info"@,
        m.level is Warning ==> f.kind@ == "warning"@,
        m.level is Error ==> f.kind@ == "error"@,
        m.level is Silent ==> f.kind@ == "silent"@,
        f.payload@ == m.payload@,
{
}

} // verus!
