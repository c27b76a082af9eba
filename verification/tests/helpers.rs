use hns::doctor::{all_passed, exit_code, model_listed, model_statuses};
use hns::summary::{
    article_prompt, clip_article, fits_or_splits, request_from_text, summary_of_reply,
    summary_prompt, PromptError, ARTICLE_LIMIT,
};

const LEAD: &str = "Summarize the following article in 3-5 sentences. Only return the summary. Here is the article:\n\n";

fn results(flags: &[bool]) -> Vec<(String, bool)> {
    flags.iter().map(|ok| ("check".to_string(), *ok)).collect()
}

#[test]
fn short_article_is_only_trimmed() {
    assert_eq!(clip_article("  short text \n"), "short text");
    assert_eq!(clip_article(""), "");
    let exact = "a".repeat(ARTICLE_LIMIT);
    assert_eq!(clip_article(&format!(" {} ", exact)), exact);
}

#[test]
fn long_article_is_cut_at_the_limit() {
    let long = "b".repeat(ARTICLE_LIMIT + 1);
    assert!(fits_or_splits(&long));
    assert_eq!(clip_article(&long), format!("{}...", "b".repeat(ARTICLE_LIMIT)));
    let wide = format!("{}{}", "c".repeat(ARTICLE_LIMIT - 2), "éé");
    assert!(fits_or_splits(&wide));
    assert_eq!(clip_article(&wide), format!("{}é...", "c".repeat(ARTICLE_LIMIT - 2)));
}

#[test]
fn article_that_cannot_be_cut_is_told() {
    let odd = format!("{}{}", "d".repeat(ARTICLE_LIMIT - 1), "éé");
    assert!(!fits_or_splits(&odd));
    assert_eq!(request_from_text(Some(odd)), Err(PromptError::SplitCharacter));
    let padded = format!("  {}é  ", "d".repeat(ARTICLE_LIMIT - 2));
    assert!(fits_or_splits(&padded));
}

#[test]
fn prompt_leads_the_article() {
    assert_eq!(summary_prompt("the article"), format!("{}the article", LEAD));
    assert_eq!(summary_prompt(""), LEAD);
}

#[test]
fn request_is_made_of_the_trimmed_text() {
    assert_eq!(request_from_text(Some("  text ".to_string())), Ok(format!("{}text", LEAD)));
    assert_eq!(request_from_text(None), Err(PromptError::NoText));
    let long = "e".repeat(5000);
    assert_eq!(
        request_from_text(Some(long)),
        Ok(format!("{}{}...", LEAD, "e".repeat(ARTICLE_LIMIT)))
    );
}

#[test]
fn page_is_turned_into_text() {
    assert_eq!(
        article_prompt("<html><body><p>Hello, world.</p></body></html>"),
        Ok(format!("{}Hello, world.", LEAD))
    );
    assert_eq!(
        article_prompt("<h1>Head</h1><p>Body text</p>"),
        Ok(format!("{}# Head\n\nBody text", LEAD))
    );
}

#[test]
fn reply_is_trimmed() {
    assert_eq!(summary_of_reply(Some("  A summary.\n".to_string())), "A summary.");
}

#[test]
fn blank_reply_is_a_failure() {
    assert_eq!(summary_of_reply(Some(" \n ".to_string())), "Summary generation failed");
    assert_eq!(summary_of_reply(Some(String::new())), "Summary generation failed");
}

#[test]
fn missing_reply_is_a_failure() {
    assert_eq!(summary_of_reply(None), "Failed to extract summary from response");
}

#[test]
fn group_passes_when_every_check_passes() {
    assert!(all_passed(&results(&[])));
    assert!(all_passed(&results(&[true, true])));
    assert!(!all_passed(&results(&[true, false])));
    assert!(!all_passed(&results(&[false, true, true])));
}

#[test]
fn exit_code_is_zero_only_when_all_is_well() {
    let good = Some(results(&[true, true]));
    let bad = Some(results(&[true, false]));
    assert_eq!(exit_code(&good, true, &good), 0);
    assert_eq!(exit_code(&good, false, &good), 1);
    assert_eq!(exit_code(&bad, true, &good), 1);
    assert_eq!(exit_code(&good, true, &bad), 1);
    assert_eq!(exit_code(&None, true, &good), 1);
    assert_eq!(exit_code(&good, true, &None), 1);
    assert_eq!(exit_code(&Some(Vec::new()), true, &Some(Vec::new())), 0);
}

#[test]
fn model_is_found_by_its_exact_name() {
    let listed = vec![Some("llama3:8b".to_string()), None, Some("gemma3:4b".to_string())];
    assert!(model_listed(&listed, "gemma3:4b"));
    assert!(!model_listed(&listed, "gemma3"));
    assert!(!model_listed(&listed, "gemma3:4B"));
    assert!(!model_listed(&Vec::new(), "gemma3:4b"));
}

#[test]
fn model_statuses_follow_the_needed_models() {
    let needed = vec!["gemma3:4b".to_string(), "other".to_string()];
    let listed = Some(vec![Some("gemma3:4b".to_string())]);
    assert_eq!(
        model_statuses(&needed, &listed),
        vec![("gemma3:4b".to_string(), true), ("other".to_string(), false)]
    );
    assert_eq!(
        model_statuses(&needed, &None),
        vec![("gemma3:4b".to_string(), false), ("other".to_string(), false)]
    );
}
