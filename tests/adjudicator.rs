use argue::adjudicator::{has_prefix, request_notice, AI, SYSTEM_INSTRUCTIONS};

#[test]
fn cooldown_refuses_second_request() {
    let mut ai = AI::new(15);
    assert!(ai.check_statement("sky is blue", 1_000).is_ok());
    assert_eq!(ai.cooldown_until, 16_000);
    let second = ai.check_statement("grass is green", 3_500);
    assert_eq!(
        second.err().unwrap(),
        "AI is on cooldown for the next 12 second(s)."
    );
    assert_eq!(ai.cooldown_until, 16_000);
    assert!(ai.check_statement("grass is green", 16_000).is_ok());
    assert_eq!(ai.cooldown_until, 31_000);
}

#[test]
fn cooldown_end_past_the_clock_still_blocks() {
    let mut ai = AI::new(u64::MAX);
    assert_eq!(ai.check_cooldown(5), Ok(()));
    assert_eq!(ai.cooldown_until, 5 + u64::MAX as u128 * 1000);
    assert!(ai.check_cooldown(u64::MAX).is_err());
}

#[test]
fn cooldown_blocks_at_the_last_instant_of_the_clock() {
    let mut ai = AI::new(1);
    assert_eq!(ai.check_cooldown(u64::MAX - 1), Ok(()));
    assert_eq!(
        ai.check_cooldown(u64::MAX).err().unwrap(),
        "AI is on cooldown for the next 0 second(s)."
    );
}

#[test]
fn verdicts_are_read_by_marker() {
    let ai = AI::new(0);
    assert_eq!(ai.parse_ai_result(Ok("[TRUE] obviously".to_string())), Ok("[TRUE] obviously".to_string()));
    assert_eq!(ai.parse_ai_result(Ok("[FALSE] no".to_string())), Err("[FALSE] no".to_string()));
    assert_eq!(ai.parse_ai_result(Ok("perhaps".to_string())), Err("perhaps".to_string()));
    assert_eq!(ai.parse_ai_result(Ok("".to_string())), Err("".to_string()));
    assert_eq!(
        ai.parse_ai_result(Err("timeout".to_string())),
        Err("Server: Internal Error while consulting AI - maybe no more money? :( - timeout".to_string())
    );
}

#[test]
fn prefix_check() {
    assert!(has_prefix("[TRUE] x", "[TRUE]"));
    assert!(has_prefix("abc", ""));
    assert!(!has_prefix("[TRU", "[TRUE]"));
    assert!(!has_prefix(" [TRUE]", "[TRUE]"));
}

#[test]
fn statement_request_text() {
    let r = AI::statement_request("Water is wet");
    assert_eq!(r.user_message, "Statement:\n* Water is wet");
    assert_eq!(
        r.system_message,
        format!(
            "Evaluate if the given statement is objectively true. In this case, begin your answer with [TRUE].\n{}",
            SYSTEM_INSTRUCTIONS
        )
    );
    let notice = request_notice(&r);
    assert_eq!(
        notice,
        format!("AI gets request:\nSystem Message:\n{}\nUser Message:\n{}", r.system_message, r.user_message)
    );
}

#[test]
fn implication_request_text() {
    let r = AI::implication_request(&vec!["All men are mortal", "Socrates is a man"], "Socrates is mortal");
    assert_eq!(
        r.user_message,
        "Premises:\n* All men are mortal\n* Socrates is a man\nConclusion:\n* Socrates is mortal"
    );
    assert!(r.system_message.starts_with("Decide if the conclusion follows from the premises."));
    assert!(r.system_message.ends_with(SYSTEM_INSTRUCTIONS));
}

#[test]
fn implication_without_premises_is_refused_without_cooldown() {
    let mut ai = AI::new(10);
    let r = ai.check_implication(&vec![], "c", 100);
    assert_eq!(r.err().unwrap(), "You need to add at least one premise to prove an implication.");
    assert_eq!(ai.cooldown_until, 0);
    let ok = ai.check_implication(&vec!["p"], "c", 100).ok().unwrap();
    assert_eq!(ok.user_message, "Premises:\n* p\nConclusion:\n* c");
    assert_eq!(ai.cooldown_until, 10_100);
}
