//! What the tool answers to libalpm's log, download and question callbacks.
use vstd::prelude::*;

verus! {

/// The quotient of `a` by `b` rounded toward zero, as Rust's `/` computes it.
pub open spec fn div_toward_zero(a: int, b: int) -> int {
    let q = (if a >= 0 { a } else { -a }) / (if b >= 0 { b } else { -b });
    if (a >= 0) == (b >= 0) {
        q
    } else {
        -q
    }
}

/// The figures a download message shows: the transferred bytes divided by the
/// total (rounded toward zero) times 100, and the bytes still to come.
pub fn download_progress(xfered: i64, total: i64) -> (res: (i64, i64))
    requires
        total != 0,
        i64::MIN <= div_toward_zero(xfered as int, total as int) * 100 <= i64::MAX,
        i64::MIN <= total - xfered <= i64::MAX,
    ensures
        res.0 == div_toward_zero(xfered as int, total as int) * 100,
        res.1 == total - xfered,
{
    let a = xfered as i128;
    let b = total as i128;
    let ua: u64 = if a >= 0 { a as u64 } else { (-a) as u64 };
    let ub: u64 = if b >= 0 { b as u64 } else { (-b) as u64 };
    let q0 = ua / ub;
    let q: i128 = if (a >= 0) == (b >= 0) { q0 as i128 } else { -(q0 as i128) };
    assert(q == div_toward_zero(xfered as int, total as int));
    ((q * 100) as i64, total - xfered)
}


/// libalpm's log levels.
pub const ALPM_LOG_ERROR: i32 = 1;
pub const ALPM_LOG_WARNING: i32 = 2;
pub const ALPM_LOG_DEBUG: i32 = 4;
pub const ALPM_LOG_FUNCTION: i32 = 8;

/// The label a log message is shown with.
#[derive(Debug, Clone, Copy, PartialEq, Eq)]
pub enum LogLabel {
    Error,
    Warn,
    Debug,
    Func,
    Unknown,
}

/// The label of a log message of level `level`, or `None` when messages of
/// that level are not shown (levels above the warning level).
pub fn log_label(level: i32) -> (res: Option<LogLabel>)
    ensures
        level > ALPM_LOG_WARNING ==> res is None,
        level == ALPM_LOG_ERROR ==> res == Some(LogLabel::Error),
        level == ALPM_LOG_WARNING ==> res == Some(LogLabel::Warn),
        level <= ALPM_LOG_WARNING && level != ALPM_LOG_ERROR && level != ALPM_LOG_WARNING ==> res == Some(LogLabel::Unknown),
{
    if level > ALPM_LOG_WARNING {
        return None;
    }
    if level == ALPM_LOG_ERROR {
        Some(LogLabel::Error)
    } else if level == ALPM_LOG_WARNING {
        Some(LogLabel::Warn)
    } else if level == ALPM_LOG_DEBUG {
        Some(LogLabel::Debug)
    } else if level == ALPM_LOG_FUNCTION {
        Some(LogLabel::Func)
    } else {
        Some(LogLabel::Unknown)
    }
}

/// The kinds of question libalpm asks.
#[derive(Debug, Clone, Copy, PartialEq, Eq)]
pub enum QuestionKind {
    InstallIgnorePkg,
    Conflict,
    SelectProvider,
    Other,
}

/// The answer given to a question of kind `kind`, where `confirmed` is the
/// user's yes or no to a conflict: installing an ignored package is always
/// allowed (1), a conflict is resolved (1) when the user agrees, and other
/// questions are left unanswered. A provider is chosen by
/// [`provider_answer`].
pub fn question_answer(kind: QuestionKind, confirmed: bool) -> (res: Option<i32>)
    ensures
        res == match kind {
            QuestionKind::InstallIgnorePkg => Some(1i32),
            QuestionKind::Conflict => if confirmed { Some(1i32) } else { None },
            _ => None,
        },
{
    match kind {
        QuestionKind::InstallIgnorePkg => Some(1),
        QuestionKind::Conflict => if confirmed { Some(1) } else { None },
        _ => None,
    }
}

/// The provider chosen by what the user typed, `selection`, among
/// `num_providers`: only a single number counts, and only one from 0 to
/// below the number of providers; otherwise `None`, and the user is asked again.
pub fn provider_answer(selection: &Vec<i32>, num_providers: usize) -> (res: Option<i32>)
    ensures
        res == if selection@.len() == 1 && 0 <= selection@[0] && selection@[0] < num_providers {
            Some(selection@[0])
        } else {
            None
        },
{
    if selection.len() != 1 {
        return None;
    }
    let provider_index = selection[0];
    if provider_index >= 0 && (provider_index as usize) < num_providers {
        Some(provider_index)
    } else {
        None
    }
}

} // verus!
