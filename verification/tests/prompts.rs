use openflow::prompts::{
    built_in_prompts, selection_system_prompt, selection_user_prompt, DEFAULT_POLISH_INSTRUCTION,
    POLISH_PROMPT_ID,
};

#[test]
fn prompts_selection_prompt_falls_back_to_default_instruction() {
    let prompt = selection_user_prompt("hello world", "  ");
    assert!(prompt.contains(DEFAULT_POLISH_INSTRUCTION));
    assert!(prompt.ends_with("hello world"));
}

#[test]
fn selection_system_prompt_is_fenced() {
    let system = selection_system_prompt();
    assert!(system.contains("Output ONLY the resulting text"));
    assert!(system.contains("Never answer questions"));
}

#[test]
fn built_in_prompts_seed_polish() {
    let prompts = built_in_prompts();
    let polish = prompts
        .iter()
        .find(|p| p.id == POLISH_PROMPT_ID)
        .expect("Polish present");
    assert_eq!(polish.name, "Polish");
    assert!(polish.built_in);
    assert_eq!(polish.shortcut, "Alt+Shift+P");
    assert_eq!(polish.instruction, DEFAULT_POLISH_INSTRUCTION);
}

#[test]
fn an_instruction_is_trimmed_into_the_user_prompt() {
    assert_eq!(
        selection_user_prompt("text", "  Make it formal. "),
        "Instruction: Make it formal.\n\nText:\ntext"
    );
}
