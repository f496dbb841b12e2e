use kea::callbacks::{download_progress, log_label, provider_answer, question_answer, LogLabel, QuestionKind};

#[test]
fn errors_and_warnings_are_labelled() {
    assert_eq!(log_label(1), Some(LogLabel::Error));
    assert_eq!(log_label(2), Some(LogLabel::Warn));
}

#[test]
fn debug_and_function_messages_are_hidden() {
    assert_eq!(log_label(4), None);
    assert_eq!(log_label(8), None);
    assert_eq!(log_label(3), None);
}

#[test]
fn other_low_levels_are_unknown() {
    assert_eq!(log_label(0), Some(LogLabel::Unknown));
    assert_eq!(log_label(-7), Some(LogLabel::Unknown));
}

#[test]
fn download_figures() {
    assert_eq!(download_progress(50, 200), (0, 150));
    assert_eq!(download_progress(200, 200), (100, 0));
    assert_eq!(download_progress(450, 200), (200, -250));
}

#[test]
fn download_figures_round_toward_zero() {
    assert_eq!(download_progress(-7, 2), (-300, 9));
    assert_eq!(download_progress(7, -2), (-300, -9));
    assert_eq!(download_progress(-7, -2), (300, 5));
}

#[test]
fn question_answers() {
    assert_eq!(question_answer(QuestionKind::InstallIgnorePkg, false), Some(1));
    assert_eq!(question_answer(QuestionKind::Conflict, true), Some(1));
    assert_eq!(question_answer(QuestionKind::Conflict, false), None);
    assert_eq!(question_answer(QuestionKind::SelectProvider, true), None);
    assert_eq!(question_answer(QuestionKind::Other, true), None);
}

#[test]
fn provider_selection_needs_one_number_in_range() {
    assert_eq!(provider_answer(&vec![1], 3), Some(1));
    assert_eq!(provider_answer(&vec![0], 3), Some(0));
    assert_eq!(provider_answer(&vec![3], 3), None);
    assert_eq!(provider_answer(&vec![-1], 3), None);
    assert_eq!(provider_answer(&vec![1, 2], 3), None);
    assert_eq!(provider_answer(&vec![], 3), None);
}
