//! Provenance of a generated thought: what went in, what came out, and how
//! the two connect.
use vstd::prelude::*;

verus! {

broadcast use vstd::string::group_string_axioms;

/// An event that fed a thought.
#[derive(Debug)]
pub struct EventInput {
    pub id: u128,
    pub event_type: String,
    pub description: String,
    /// In `[0, 1]`.
    pub probability: i64,
    pub timeframe: String,
    pub requirements: Vec<String>,
}

/// An effect that a thought has.
#[derive(Debug)]
pub struct EventOutput {
    pub id: u128,
    pub effect_type: String,
    pub description: String,
    pub impact_score: i64,
    pub dependencies: Vec<u128>,
    pub cascading_effects: Vec<String>,
}

/// Inputs, outputs, and (input id, output id) connections of a thought.
#[derive(Debug)]
pub struct ThoughtIO {
    pub inputs: Vec<EventInput>,
    pub outputs: Vec<EventOutput>,
    pub connection_graph: Vec<(u128, u128)>,
}

/// Descriptions of the inputs, then of the outputs, in order.
pub open spec fn io_descriptions(io: ThoughtIO) -> Seq<Seq<char>> {
    Seq::new(io.inputs@.len(), |i: int| io.inputs@[i].description@) + Seq::new(
        io.outputs@.len(),
        |i: int| io.outputs@[i].description@,
    )
}

impl ThoughtIO {
    /// Provenance of a generated thought: one input, the generation of
    /// `content` with probability `relevance` and the given requirements;
    /// one output, a system update of the same impact; one connection.
    pub fn for_thought(
        content: &str,
        relevance: i64,
        factors: Vec<String>,
        input_id: u128,
        output_id: u128,
    ) -> (r: ThoughtIO)
        ensures
            r.inputs@.len() == 1 && r.outputs@.len() == 1,
            r.inputs@[0].id == input_id && r.outputs@[0].id == output_id,
            r.inputs@[0].description@ == content@,
            r.inputs@[0].probability == relevance,
            r.outputs@[0].description@ == "Update system based on thought"@,
            r.outputs@[0].impact_score == relevance,
            r.connection_graph@ == seq![(input_id, output_id)],
    {
        let mut effects: Vec<String> = Vec::new();
        let mut i: usize = 0;
        while i < factors.len()
            invariant
                i <= factors.len(),
            decreases factors.len() - i,
        {
            effects.push(factors[i].clone());
            i = i + 1;
        }
        let input = EventInput {
            id: input_id,
            event_type: "THOUGHT_GENERATION".to_string(),
            description: content.to_string(),
            probability: relevance,
            timeframe: "immediate".to_string(),
            requirements: factors,
        };
        let output = EventOutput {
            id: output_id,
            effect_type: "SYSTEM_UPDATE".to_string(),
            description: "Update system based on thought".to_string(),
            impact_score: relevance,
            dependencies: Vec::new(),
            cascading_effects: effects,
        };
        ThoughtIO { inputs: vec![input], outputs: vec![output], connection_graph: vec![(input_id, output_id)] }
    }

    /// The descriptions of the inputs, then of the outputs.
    pub fn descriptions(&self) -> (r: Vec<String>)
        ensures
            r@.len() == io_descriptions(*self).len(),
            forall|i: int| 0 <= i < r@.len() ==> (#[trigger] r@[i])@ == io_descriptions(*self)[i],
    {
        let mut out: Vec<String> = Vec::new();
        let mut i: usize = 0;
        while i < self.inputs.len()
            invariant
                i <= self.inputs.len(),
                out@.len() == i,
                forall|k: int| 0 <= k < i ==> (#[trigger] out@[k])@ == self.inputs@[k].description@,
            decreases self.inputs.len() - i,
        {
            out.push(self.inputs[i].description.clone());
            i = i + 1;
        }
        let n = self.inputs.len();
        let mut j: usize = 0;
        while j < self.outputs.len()
            invariant
                n == self.inputs@.len(),
                j <= self.outputs.len(),
                out@.len() == n + j,
                forall|k: int| 0 <= k < n ==> (#[trigger] out@[k])@ == self.inputs@[k].description@,
                forall|k: int| 0 <= k < j ==> (#[trigger] out@[n + k])@ == self.outputs@[k].description@,
            decreases self.outputs.len() - j,
        {
            out.push(self.outputs[j].description.clone());
            j = j + 1;
        }
        proof {
            assert forall|i: int| 0 <= i < out@.len() implies (#[trigger] out@[i])@ == io_descriptions(*self)[i] by {
                if i >= n {
                    assert(out@[n + (i - n)] == out@[i]);
                }
            }
        }
        out
    }
}

} // verus!
