//! The public normalization entry points: the pure neutral-form
//! normalizer and the full operation that validates its input and
//! resolves a relative path against a base directory.

use vstd::prelude::*;

use crate::collapse::{collapse, collapse_model};
use crate::text::{
    decompose, decompose_text, is_absolute_text, reassemble, reassemble_text, trim, trim_text,
};

verus! {

/// Why a path could not be normalized: the input was empty once
/// trimmed, or the base directory needed for a relative input was not
/// available.
#[derive(Debug, Clone, Copy, PartialEq, Eq, Structural)]
pub enum PathError {
    InvalidInput,
    EnvironmentUnavailable,
}

impl PathError {
    /// A short description of the failure, in the words the host
    /// application reports.
    pub fn message(&self) -> (m: &'static str)
        ensures
            self is InvalidInput ==> m@ == "Path is required"@,
            self is EnvironmentUnavailable ==> m@ == "Unable to resolve current directory"@,
    {
        match self {
            PathError::InvalidInput => "Path is required",
            PathError::EnvironmentUnavailable => "Unable to resolve current directory",
        }
    }
}

/// The canonical neutral text of a path: decomposed, collapsed with the
/// absoluteness the text itself shows, and reassembled. A collapse that
/// leaves nothing — a relative path that reduces away entirely —
/// reassembles to the bare current-directory marker.
pub open spec fn normalize_text(s: Seq<char>) -> Seq<char> {
    let collapsed = collapse_model(decompose_text(s), is_absolute_text(s));
    if collapsed.len() == 0 {
        seq!['.']
    } else {
        reassemble_text(collapsed)
    }
}

/// Normalize neutral-form path text without resolving it: the result is
/// relative when the input is.
pub fn normalize_str(s: &str) -> (r: String)
    ensures
        r@ == normalize_text(s@),
{
    let (components, absolute) = decompose(s);
    let collapsed = collapse(&components, absolute);
    if collapsed.len() == 0 {
        let r = String::from_str(".");
        proof {
            reveal_strlit(".");
            assert(r@ =~= seq!['.']);
        }
        r
    } else {
        reassemble(&collapsed)
    }
}

/// A relative path joined onto a base directory, separator between.
pub open spec fn joined_text(base: Seq<char>, rel: Seq<char>) -> Seq<char> {
    base + seq!['/'] + rel
}

fn starts_with_separator(s: &str) -> (b: bool)
    ensures
        b == is_absolute_text(s@),
{
    s.unicode_len() > 0 && s.get_char(0) == '/'
}

/// Turn a raw path string into its canonical form.
///
/// The input is trimmed of surrounding whitespace; an input that is
/// empty after trimming is rejected as `InvalidInput`. An absolute
/// input is normalized as it stands. A relative input is joined onto
/// `base_dir` — the working directory the caller read, or `None` where
/// that read failed, which is reported as `EnvironmentUnavailable`.
pub fn normalize_path(raw: &str, base_dir: Option<&str>) -> (r: Result<String, PathError>)
    ensures
        ({
            let t = trim_text(raw@);
            if t.len() == 0 {
                r matches Err(e) && e is InvalidInput
            } else if is_absolute_text(t) {
                r matches Ok(s) && s@ == normalize_text(t)
            } else {
                match base_dir {
                    Option::None => r matches Err(e) && e is EnvironmentUnavailable,
                    Option::Some(base) => r matches Ok(s) && s@ == normalize_text(
                        joined_text(base@, t),
                    ),
                }
            }
        }),
{
    let trimmed = trim(raw);
    if trimmed.unicode_len() == 0 {
        return Err(PathError::InvalidInput);
    }
    if starts_with_separator(trimmed) {
        Ok(normalize_str(trimmed))
    } else {
        match base_dir {
            Option::None => Err(PathError::EnvironmentUnavailable),
            Option::Some(base) => {
                let mut joined = String::from_str(base);
                joined.append("/");
                joined.append(trimmed);
                proof {
                    reveal_strlit("/");
                    assert("/"@ =~= seq!['/']);
                    assert(joined@ =~= joined_text(base@, trim_text(raw@)));
                }
                Ok(normalize_str(joined.as_str()))
            },
        }
    }
}

} // verus!
