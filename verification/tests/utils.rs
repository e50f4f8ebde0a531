use its_hub_rs::prompts::{QWEN_SYSTEM_PROMPT, SAL_STEP_BY_STEP_SYSTEM_PROMPT};

#[test]
fn test_sal_prompt_contains_key_phrases() {
    assert!(SAL_STEP_BY_STEP_SYSTEM_PROMPT.contains("step-by-step"));
    assert!(SAL_STEP_BY_STEP_SYSTEM_PROMPT.contains("\\boxed{answer}"));
    assert!(SAL_STEP_BY_STEP_SYSTEM_PROMPT.contains("## Step 1:"));
}

#[test]
fn test_qwen_prompt_contains_boxed() {
    assert!(QWEN_SYSTEM_PROMPT.contains("\\boxed{}"));
    assert!(QWEN_SYSTEM_PROMPT.contains("step by step"));
}
