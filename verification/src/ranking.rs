//! Rating a job against the user's profile with a language model: the
//! messages sent, and the rating read from the model's answer.

use vstd::prelude::*;
use crate::models::JobAd;
use crate::jobs::description_text;
use crate::text::{append_chars, chars_of, string_from_chars, trim, trim_str};

verus! {

/// The model the rating asks.
pub fn rating_model() -> (r: &'static str)
    ensures
        r@ == "llama3"@,
{
    "llama3"
}

/// The most tokens the answer may have.
pub const RATING_MAX_TOKENS: u32 = 10;

/// The system message of the rating request.
pub fn rating_system_message() -> (r: &'static str)
    ensures
        r@ == "You are a career advisor assistant. You rate job matches from 1 to 10. Output only the digit."@,
{
    "You are a career advisor assistant. You rate job matches from 1 to 10. Output only the digit."
}

/// The user message of the rating request: the profile, then the job's
/// headline and description (empty where it has none).
pub open spec fn rating_prompt_spec(profile: Seq<char>, ad: JobAd) -> Seq<char> {
    "Rate how well this job matches my profile. Output ONLY a single number from 1 to 10.\n\nMy Profile:\n"@
        + profile + "\n\nJob Headline: "@ + ad.headline@ + "\nJob Description: "@
        + match description_text(ad) {
            Some(t) => t,
            None => Seq::empty(),
        }
}

pub fn rating_prompt(ad: &JobAd, my_profile: &str) -> (r: String)
    ensures
        r@ == rating_prompt_spec(my_profile@, *ad),
{
    let mut v = chars_of("Rate how well this job matches my profile. Output ONLY a single number from 1 to 10.\n\nMy Profile:\n");
    append_chars(&mut v, chars_of(my_profile).as_slice());
    append_chars(&mut v, chars_of("\n\nJob Headline: ").as_slice());
    append_chars(&mut v, chars_of(ad.headline.as_str()).as_slice());
    append_chars(&mut v, chars_of("\nJob Description: ").as_slice());
    match &ad.description {
        Some(d) => match &d.text {
            Some(t) => append_chars(&mut v, chars_of(t.as_str()).as_slice()),
            None => {},
        },
        None => {},
    }
    string_from_chars(v.as_slice())
}

/// The chat request that rates a job: the model, the most tokens the
/// answer may have, the system message and the user message.
#[derive(Debug, Clone)]
pub struct RatingRequest {
    pub model: String,
    pub max_tokens: u32,
    pub system: String,
    pub user: String,
}

/// The request that rates an ad against the user's profile.
pub fn rating_request(ad: &JobAd, my_profile: &str) -> (r: RatingRequest)
    ensures
        r.model@ == "llama3"@,
        r.max_tokens == 10,
        r.system@ == "You are a career advisor assistant. You rate job matches from 1 to 10. Output only the digit."@,
        r.user@ == rating_prompt_spec(my_profile@, *ad),
{
    RatingRequest {
        model: rating_model().to_string(),
        max_tokens: RATING_MAX_TOKENS,
        system: rating_system_message().to_string(),
        user: rating_prompt(ad, my_profile),
    }
}

/// The value of the last ASCII digit of a text, if it has one.
pub open spec fn last_digit(s: Seq<char>) -> Option<u8>
    decreases s.len(),
{
    if s.len() == 0 {
        None
    } else if '0' <= s.last() && s.last() <= '9' {
        Some(((s.last() as int) - ('0' as int)) as u8)
    } else {
        last_digit(s.drop_last())
    }
}

/// The rating read from the model's answer: its last digit once trimmed,
/// 0 when it has none.
pub open spec fn rating_of_answer(answer: Seq<char>) -> u8 {
    match last_digit(trim(answer)) {
        Some(d) => d,
        None => 0,
    }
}

/// The last digit of a text is the ASCII digit after which no other one
/// comes, whatever characters follow it.
proof fn lemma_last_digit_at(s: Seq<char>, i: int)
    requires
        0 <= i < s.len(),
        '0' <= s[i] <= '9',
        forall|j: int| i < j < s.len() ==> !('0' <= #[trigger] s[j] <= '9'),
    ensures
        last_digit(s) == Some(((s[i] as int) - ('0' as int)) as u8),
    decreases s.len(),
{
    if i < s.len() - 1 {
        assert(!('0' <= s[s.len() - 1] <= '9'));
        lemma_last_digit_at(s.drop_last(), i);
    }
}

/// A text without an ASCII digit has no last digit.
proof fn lemma_no_last_digit(s: Seq<char>)
    requires
        forall|j: int| 0 <= j < s.len() ==> !('0' <= #[trigger] s[j] <= '9'),
    ensures
        last_digit(s) is None,
    decreases s.len(),
{
    if s.len() > 0 {
        assert(!('0' <= s[s.len() - 1] <= '9'));
        lemma_no_last_digit(s.drop_last());
    }
}

/// The rating read from an answer is the value of the last ASCII digit of
/// the trimmed answer, whatever characters come after it; an answer
/// without a digit rates 0.
pub proof fn lemma_rating_is_last_digit(answer: Seq<char>)
    ensures
        forall|i: int| 0 <= i < trim(answer).len() && '0' <= #[trigger] trim(answer)[i] <= '9'
            && (forall|j: int| i < j < trim(answer).len() ==> !('0' <= #[trigger] trim(answer)[j] <= '9'))
            ==> rating_of_answer(answer) as int == (trim(answer)[i] as int) - ('0' as int),
        (forall|j: int| 0 <= j < trim(answer).len() ==> !('0' <= #[trigger] trim(answer)[j] <= '9'))
            ==> rating_of_answer(answer) == 0,
{
    let t = trim(answer);
    assert forall|i: int| 0 <= i < t.len() && '0' <= #[trigger] t[i] <= '9'
        && (forall|j: int| i < j < t.len() ==> !('0' <= #[trigger] t[j] <= '9'))
        implies rating_of_answer(answer) as int == (t[i] as int) - ('0' as int) by {
        lemma_last_digit_at(t, i);
    }
    if forall|j: int| 0 <= j < t.len() ==> !('0' <= #[trigger] t[j] <= '9') {
        lemma_no_last_digit(t);
    }
}

pub fn parse_rating(answer: &str) -> (r: u8)
    ensures
        r == rating_of_answer(answer@),
        r <= 9,
{
    let t = trim_str(answer);
    let mut i: usize = t.len();
    assert(t@.take(t@.len() as int) =~= t@);
    while i > 0
        invariant
            i <= t@.len(),
            t@ == trim(answer@),
            last_digit(t@) == last_digit(t@.take(i as int)),
        decreases i,
    {
        let c = t[i - 1];
        assert(t@.take(i as int).drop_last() =~= t@.take(i - 1));
        assert(t@.take(i as int).last() == c);
        if '0' <= c && c <= '9' {
            let d = ((c as u32) - ('0' as u32)) as u8;
            assert(last_digit(t@.take(i as int)) == Some(d));
            assert(last_digit(trim(answer@)) == Some(d));
            assert(rating_of_answer(answer@) == d);
            return d;
        }
        i = i - 1;
    }
    assert(t@.take(0) =~= Seq::<char>::empty());
    0
}

} // verus!
