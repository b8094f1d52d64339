//! The highlight pipeline: an ordered list of highlighters, each optionally
//! behind the escape-aware composition wrapper, applied left to right over
//! each line. Order is significant: a token recognized by an earlier stage
//! is protected from relabeling by later wrapped stages, which never
//! re-enter colored regions.

use vstd::prelude::*;
use crate::highlight::HighlightResult;
use crate::highlighters::Highlighter;
use crate::split_and_apply::{apply_only_to_unhighlighted, wrapped_tail};

verus! {

/// One pipeline stage: a highlighter, and whether it runs behind the
/// escape-aware composition wrapper.
pub struct PipelineStage {
    pub highlighter: Highlighter,
    pub wrapped: bool,
}

/// What one stage makes of a line.
pub open spec fn stage_out(st: &PipelineStage, s: Seq<u8>) -> Seq<u8> {
    if st.wrapped {
        wrapped_tail(&st.highlighter, s, 0)
    } else {
        st.highlighter.out_bytes(s)
    }
}

/// The line after stages `i..` have each consumed the previous stage's
/// output.
pub open spec fn pipe_from(stages: Seq<PipelineStage>, i: int, s: Seq<u8>) -> Seq<u8>
    decreases stages.len() - i
        when 0 <= i <= stages.len()
{
    if i >= stages.len() {
        s
    } else {
        pipe_from(stages, i + 1, stage_out(&stages[i], s))
    }
}

pub struct HighlightPipeline {
    pub stages: Vec<PipelineStage>,
}

impl HighlightPipeline {
    pub fn new() -> (r: Self)
        ensures
            r.stages@.len() == 0,
    {
        HighlightPipeline { stages: Vec::new() }
    }

    /// Add a stage at the end of the pipeline.
    pub fn push_stage(&mut self, highlighter: Highlighter, wrapped: bool)
        ensures
            final(self).stages@.len() == old(self).stages@.len() + 1,
            final(self).stages@.last().highlighter == highlighter,
            final(self).stages@.last().wrapped == wrapped,
            final(self).stages@.drop_last() == old(self).stages@,
    {
        self.stages.push(PipelineStage { highlighter, wrapped });
        proof {
            assert(self.stages@.drop_last() =~= old(self).stages@);
        }
    }

    /// Run every stage over `line`, in order. `Unchanged` means no stage
    /// produced anything new, and then the pipeline's output is the line
    /// itself.
    pub fn apply(&self, line: &[u8]) -> (r: HighlightResult)
        ensures
            r.bytes_or(line@) == pipe_from(self.stages@, 0, line@),
            r is Unchanged ==> pipe_from(self.stages@, 0, line@) == line@,
    {
        let ghost stages = self.stages@;
        let mut cur: Option<Vec<u8>> = None;
        let mut i: usize = 0;
        while i < self.stages.len()
            invariant
                0 <= i <= stages.len(),
                stages == self.stages@,
                pipe_from(stages, i as int, match &cur {
                    None => line@,
                    Some(v) => v@,
                }) == pipe_from(stages, 0, line@),
            decreases stages.len() - i,
        {
            let stage = &self.stages[i];
            let res = if stage.wrapped {
                match &cur {
                    None => apply_only_to_unhighlighted(line, &stage.highlighter),
                    Some(v) => apply_only_to_unhighlighted(v.as_slice(), &stage.highlighter),
                }
            } else {
                match &cur {
                    None => stage.highlighter.apply(line),
                    Some(v) => stage.highlighter.apply(v.as_slice()),
                }
            };
            proof {
                let before = match &cur {
                    None => line@,
                    Some(v) => v@,
                };
                assert(pipe_from(stages, i as int, before) == pipe_from(
                    stages,
                    i + 1 as int,
                    stage_out(&stages[i as int], before),
                ));
            }
            match res {
                HighlightResult::Unchanged => {},
                HighlightResult::Highlighted(v) => {
                    cur = Some(v);
                },
            }
            i += 1;
        }
        match cur {
            None => HighlightResult::Unchanged,
            Some(v) => HighlightResult::Highlighted(v),
        }
    }
}

} // verus!
