//! Review ratings of the spaced-repetition scheduler, and the integer part
//! of one SuperMemo-2 review.
use vstd::prelude::*;

use crate::text::{ascii_lower, ascii_lowercase, chars_of, str_eq, string_of_chars, trim, trim_seq};

verus! {

/// How well a learner recalled an item.
#[derive(Debug, Clone, Copy, PartialEq, Eq, Structural)]
pub enum Rating {
    Again,
    Hard,
    Good,
    Easy,
}

/// The SuperMemo-2 quality grade of a rating.
pub open spec fn quality_of(r: Rating) -> i32 {
    match r {
        Rating::Again => 2,
        Rating::Hard => 3,
        Rating::Good => 4,
        Rating::Easy => 5,
    }
}

/// The rating a text names, ignoring surrounding white space and ASCII
/// case.
pub open spec fn parse_rating(raw: Seq<char>) -> Option<Rating> {
    let key = ascii_lowercase(trim_seq(raw));
    if key == "again"@ {
        Some(Rating::Again)
    } else if key == "hard"@ {
        Some(Rating::Hard)
    } else if key == "good"@ {
        Some(Rating::Good)
    } else if key == "easy"@ {
        Some(Rating::Easy)
    } else {
        None
    }
}

fn to_ascii_lowercase(s: &str) -> (r: String)
    ensures
        r@ == ascii_lowercase(s@),
{
    let chars = chars_of(s);
    let mut out: Vec<char> = Vec::new();
    for i in 0..chars.len()
        invariant
            out@ == ascii_lowercase(chars@.take(i as int)),
    {
        let c = chars[i];
        let lower = if 'A' <= c && c <= 'Z' {
            let code = (c as u32) + 32;
            assert(code <= 0x7f);
            (code as u8) as char
        } else {
            c
        };
        assert(lower == ascii_lower(c));
        out.push(lower);
        assert(out@ =~= ascii_lowercase(chars@.take(i + 1)));
    }
    assert(chars@.take(chars@.len() as int) =~= chars@);
    string_of_chars(&out)
}

impl Rating {
    /// Parses a rating name; unknown names are refused with a message that
    /// quotes the input.
    pub fn from_str(value: &str) -> (r: Result<Rating, String>)
        ensures
            match r {
                Ok(rating) => parse_rating(value@) == Some(rating),
                Err(message) => parse_rating(value@) is None && message@ == "Unsupported rating: "@ + value@,
            },
    {
        let trimmed = trim(value);
        let key = to_ascii_lowercase(trimmed.as_str());
        if str_eq(key.as_str(), "again") {
            Ok(Rating::Again)
        } else if str_eq(key.as_str(), "hard") {
            Ok(Rating::Hard)
        } else if str_eq(key.as_str(), "good") {
            Ok(Rating::Good)
        } else if str_eq(key.as_str(), "easy") {
            Ok(Rating::Easy)
        } else {
            let mut message = String::from_str("Unsupported rating: ");
            message.append(value);
            Err(message)
        }
    }

    /// The SuperMemo-2 quality grade.
    pub fn quality(self) -> (r: i32)
        ensures
            r == quality_of(self),
    {
        match self {
            Rating::Again => 2,
            Rating::Hard => 3,
            Rating::Good => 4,
            Rating::Easy => 5,
        }
    }
}

/// The next interval of an SM-2 review: a fixed number of days, or the
/// previous interval grown by the ease factor.
#[derive(Debug, Clone, Copy, PartialEq, Eq, Structural)]
pub enum NextInterval {
    Days(i32),
    GrowByEase,
}

/// The repetition count and next interval after one review with `rating`,
/// given the repetition count before it: a failed recall (quality below 3)
/// resets the count to 0 and the interval to 1 day; otherwise the count
/// grows by one, and the first and second successful reviews in a row are
/// followed by intervals of 1 and 6 days, later ones by the grown interval.
pub open spec fn review_step(repetitions: int, rating: Rating) -> (int, NextInterval) {
    if quality_of(rating) < 3 {
        (0, NextInterval::Days(1))
    } else {
        let n = repetitions + 1;
        (n, if n == 1 {
            NextInterval::Days(1)
        } else if n == 2 {
            NextInterval::Days(6)
        } else {
            NextInterval::GrowByEase
        })
    }
}

/// The integer part of one SM-2 review: the new repetition count and the
/// next interval.
pub fn sm2_review_step(repetitions: i32, rating: Rating) -> (r: (i32, NextInterval))
    requires
        quality_of(rating) < 3 || repetitions < i32::MAX,
    ensures
        (r.0 as int, r.1) == review_step(repetitions as int, rating),
{
    if rating.quality() < 3 {
        (0, NextInterval::Days(1))
    } else {
        let n = repetitions + 1;
        if n == 1 {
            (n, NextInterval::Days(1))
        } else if n == 2 {
            (n, NextInterval::Days(6))
        } else {
            (n, NextInterval::GrowByEase)
        }
    }
}

} // verus!
