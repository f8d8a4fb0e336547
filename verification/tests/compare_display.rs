#[test]
fn test_delta_calculations() {
    let count1 = 100;
    let count2 = 150;
    let delta = count2 - count1;

    assert_eq!(delta, 50);

    let count1 = 200;
    let count2 = 150;
    let delta = count2 - count1;

    assert_eq!(delta, -50);
}

#[test]
fn test_filter_message_generation() {
    let mut filter_reasons = Vec::new();
    let min_score = 0.5;
    let eval_filter = "mmlu";

    filter_reasons.push(format!("min score: {:.3}", min_score));
    filter_reasons.push(format!("eval dataset: {}", eval_filter));

    let message = filter_reasons.join(", ");
    assert_eq!(message, "min score: 0.500, eval dataset: mmlu");
}
