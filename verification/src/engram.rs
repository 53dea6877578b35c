use vstd::prelude::*;
use vstd::string::StringExecFns;

verus! {

/// Semantic metadata of an engram.
#[derive(Debug, Clone)]
pub struct EngramMeta {
    pub raw_text: String,
    pub symbol: String,
    pub emotion: String,
    pub theme: String,
    pub entities: Vec<String>,
}

/// One step of the audit trail of how a thought was formed.
#[derive(Debug, Clone)]
pub struct TraceStep {
    pub step_sequence: i32,
    pub protocol_name: String,
    pub output_summary: String,
    pub timestamp: u64,
}

/// Builds the plain-valued parts of an engram from a raw intent. The engram
/// itself also carries an embedding vector and a fresh ritual id, which are
/// assembled outside the verified core.
pub struct Consecrator;

impl Consecrator {
    /// The metadata for a raw text under a symbol and theme: the emotion
    /// defaults to neutral and no entities are extracted.
    pub fn consecrate_meta(text: &str, symbol: &str, theme: &str) -> (r: EngramMeta)
        ensures
            r.raw_text@ == text@,
            r.symbol@ == symbol@,
            r.theme@ == theme@,
            r.emotion@ == "neutral"@,
            r.entities@.len() == 0,
    {
        EngramMeta {
            raw_text: text.to_owned(),
            symbol: symbol.to_owned(),
            emotion: String::from_str("neutral"),
            theme: theme.to_owned(),
            entities: Vec::new(),
        }
    }

    /// The two-step formation trail: the symbolic parse, then the ritual,
    /// both stamped with the given time.
    pub fn consecrate_trace(symbol: &str, theme: &str, now: u64) -> (r: Vec<TraceStep>)
        ensures
            r@.len() == 2,
            r@[0].step_sequence == 1,
            r@[0].protocol_name@ == "SymbolicParser"@,
            r@[0].output_summary@ == "Symbol identified: "@ + symbol@,
            r@[0].timestamp == now,
            r@[1].step_sequence == 2,
            r@[1].protocol_name@ == "Ritualizer"@,
            r@[1].output_summary@ == "Theme applied: "@ + theme@,
            r@[1].timestamp == now,
    {
        let step1 = TraceStep {
            step_sequence: 1,
            protocol_name: String::from_str("SymbolicParser"),
            output_summary: String::from_str("Symbol identified: ").concat(symbol),
            timestamp: now,
        };
        let step2 = TraceStep {
            step_sequence: 2,
            protocol_name: String::from_str("Ritualizer"),
            output_summary: String::from_str("Theme applied: ").concat(theme),
            timestamp: now,
        };
        let mut r: Vec<TraceStep> = Vec::new();
        r.push(step1);
        r.push(step2);
        r
    }
}

} // verus!
