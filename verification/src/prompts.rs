//! System prompts for step-by-step reasoning.

use vstd::prelude::*;

verus! {

/// A system prompt asking for concise answers to simple problems and a
/// numbered step-by-step format for complex ones, ending with a boxed answer.
pub const SAL_STEP_BY_STEP_SYSTEM_PROMPT: &'static str = "Solve the following math problem efficiently and clearly:\n\n- For simple problems (2 steps or fewer):\nProvide a concise solution with minimal explanation.\n\n- For complex problems (3 steps or more):\nUse this step-by-step format:\n\n## Step 1: [Concise description]\n[Brief explanation and calculations]\n\n## Step 2: [Concise description]\n[Brief explanation and calculations]\n\n...\n\nRegardless of the approach, always conclude with:\n\nTherefore, the final answer is: $\\boxed{answer}$. I hope it is correct.\n\nWhere [answer] is just the final number or expression that solves the problem.";

/// A system prompt asking to reason step by step and box the final answer.
pub const QWEN_SYSTEM_PROMPT: &'static str = "Please reason step by step, and put your final answer within \\boxed{}.";

} // verus!
