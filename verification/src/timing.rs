//! How long the stages of a turn took.

use crate::text::{decimal, push_decimal};
use vstd::prelude::*;
use vstd::string::StringExecFns;

verus! {

/// The times of one turn, in milliseconds.
#[derive(Clone, Copy, Debug, PartialEq, Eq, Structural)]
pub struct TurnTiming {
    /// Silence that the speaker had to leave before the turn ended.
    pub endpoint_ms: u32,
    /// Transcription.
    pub stt_ms: u32,
    /// Refinement.
    pub refine_ms: u32,
    /// From the end of speech to the start of the reply.
    pub reply_start_ms: u32,
}

impl TurnTiming {
    /// The line that shows the times.
    pub open spec fn line(self) -> Seq<char> {
        "endpoint ~"@ + decimal(self.endpoint_ms as nat) + "ms \u{00B7} stt "@ + decimal(
            self.stt_ms as nat,
        ) + "ms \u{00B7} refine "@ + decimal(self.refine_ms as nat)
            + "ms \u{00B7} reply-start +"@ + decimal(self.reply_start_ms as nat) + "ms"@
    }

    pub fn format(&self) -> (text: String)
        ensures
            text@ == self.line(),
    {
        let mut text = "endpoint ~".to_owned();
        push_decimal(&mut text, self.endpoint_ms);
        text.append("ms \u{00B7} stt ");
        push_decimal(&mut text, self.stt_ms);
        text.append("ms \u{00B7} refine ");
        push_decimal(&mut text, self.refine_ms);
        text.append("ms \u{00B7} reply-start +");
        push_decimal(&mut text, self.reply_start_ms);
        text.append("ms");
        text
    }
}

/// A measured time in milliseconds, of which the low 32 bits are kept.
pub fn elapsed_ms(millis: u128) -> (ms: u32)
    ensures
        ms == millis % 0x1_0000_0000,
{
    (millis % 0x1_0000_0000) as u32
}

/// The line names the four times in their order, each in decimal before its unit,
/// whatever they are.
pub proof fn line_names_the_four_times(t: TurnTiming)
    ensures
        t.line() == "endpoint ~"@ + decimal(t.endpoint_ms as nat) + "ms \u{00B7} stt "@ + decimal(
            t.stt_ms as nat,
        ) + "ms \u{00B7} refine "@ + decimal(t.refine_ms as nat) + "ms \u{00B7} reply-start +"@
            + decimal(t.reply_start_ms as nat) + "ms"@,
{
}

} // verus!
