//! Transcription configuration and transcript text helpers. The speech
//! recognizer itself runs outside this crate.

use vstd::prelude::*;

use crate::text::{chars_of, push_char};

verus! {

/// Configuration for a transcription run.
#[derive(Debug, Clone)]
pub struct TranscriptionSettings {
    pub model_path: String,
    pub language: Option<String>,
    pub detect_language: bool,
}

impl TranscriptionSettings {
    /// English-only models cannot detect a language: when no language was
    /// chosen and detection is on, such a model pins English and turns
    /// detection off.
    pub fn apply_model_defaults(&mut self)
        ensures
            final(self).model_path@ == old(self).model_path@,
            if old(self).language is None && old(self).detect_language && path_is_english_only_spec(
                old(self).model_path@,
            ) {
                final(self).language matches Some(l) && l@ == "en"@
                    && !final(self).detect_language
            } else {
                *final(self) == *old(self)
            },
    {
        if self.language.is_none() && self.detect_language && self.is_english_only_model() {
            self.language = Some("en".to_owned());
            self.detect_language = false;
        }
    }

    /// Whether the configured model file is an English-only model.
    pub fn is_english_only_model(&self) -> (r: bool)
        ensures
            r == path_is_english_only_spec(self.model_path@),
    {
        Self::path_is_english_only(self.model_path.as_str())
    }

    /// Whether the file name of `path` ends in `.en.bin`.
    pub fn path_is_english_only(path: &str) -> (r: bool)
        ensures
            r == path_is_english_only_spec(path@),
    {
        let cs = chars_of(path);
        let n = cs.len();
        // The file-name check only looks at the part after the last '/',
        // and a suffix match never crosses it, so matching on the whole
        // string is equivalent unless the suffix would span a separator.
        if n < 7 {
            return false;
        }
        let tail_ok = cs[n - 7] == '.' && cs[n - 6] == 'e' && cs[n - 5] == 'n' && cs[n - 4] == '.'
            && cs[n - 3] == 'b' && cs[n - 2] == 'i' && cs[n - 1] == 'n';
        proof {
            assert(path@.skip(path@.len() - 7) =~= seq![
                cs@[n - 7],
                cs@[n - 6],
                cs@[n - 5],
                cs@[n - 4],
                cs@[n - 3],
                cs@[n - 2],
                cs@[n - 1],
            ]);
            reveal_strlit(".en.bin");
            assert(".en.bin"@ =~= seq!['.', 'e', 'n', '.', 'b', 'i', 'n']);
        }
        tail_ok
    }
}

/// Whether a path's last seven characters are `.en.bin`.
pub open spec fn path_is_english_only_spec(path: Seq<char>) -> bool {
    path.len() >= 7 && path.skip(path.len() - 7) == ".en.bin"@
}

/// What a preview keeps: the text trimmed of leading and trailing ASCII
/// whitespace, newlines replaced by spaces, cut to 40 characters with an
/// ellipsis when longer.
pub const PREVIEW_CHAR_LIMIT: usize = 40;

/// ASCII whitespace, as `str::trim` sees the usual transcript content.
pub open spec fn spec_is_ws(c: char) -> bool {
    c == ' ' || c == '\t' || c == '\n' || c == '\r' || c == '\u{b}' || c == '\u{c}'
}

/// Index of the first non-whitespace character (or the length).
pub open spec fn spec_trim_start(s: Seq<char>) -> int
    decreases s.len(),
{
    if s.len() == 0 {
        0int
    } else if spec_is_ws(s[0]) {
        1 + spec_trim_start(s.drop_first())
    } else {
        0int
    }
}

/// Length after trailing whitespace is removed.
pub open spec fn spec_trim_end(s: Seq<char>) -> int
    decreases s.len(),
{
    if s.len() == 0 {
        0int
    } else if spec_is_ws(s[s.len() - 1]) {
        spec_trim_end(s.drop_last())
    } else {
        s.len() as int
    }
}

/// The trimmed body of `s`, with newlines replaced by spaces.
pub open spec fn spec_sanitized(s: Seq<char>) -> Seq<char> {
    let start = spec_trim_start(s);
    let body = if start <= spec_trim_end(s) {
        s.subrange(start, spec_trim_end(s))
    } else {
        Seq::empty()
    };
    body.map_values(|c: char| if c == '\n' { ' ' } else { c })
}

/// The preview of sanitized text `t`: `t` itself when it fits, else its
/// first 40 characters followed by an ellipsis.
pub open spec fn spec_preview(t: Seq<char>) -> Seq<char> {
    if t.len() <= PREVIEW_CHAR_LIMIT {
        t
    } else {
        t.subrange(0, PREVIEW_CHAR_LIMIT as int).push('\u{2026}')
    }
}

proof fn lemma_trim_bounds(s: Seq<char>)
    ensures
        0 <= spec_trim_start(s) <= s.len(),
        0 <= spec_trim_end(s) <= s.len(),
    decreases s.len(),
{
    if s.len() > 0 {
        lemma_trim_bounds(s.drop_first());
        lemma_trim_bounds(s.drop_last());
    }
}

proof fn lemma_trim_start_prefix(s: Seq<char>, k: int)
    requires
        0 <= k <= s.len(),
        forall|i: int| 0 <= i < k ==> spec_is_ws(s[i]),
        k < s.len() ==> !spec_is_ws(s[k]),
    ensures
        spec_trim_start(s) == if k < s.len() {
            k
        } else {
            s.len() as int
        },
    decreases s.len(),
{
    if s.len() > 0 {
        if k == 0 {
        } else {
            lemma_trim_start_prefix(s.drop_first(), k - 1);
        }
    }
}

proof fn lemma_trim_end_suffix(s: Seq<char>, k: int)
    requires
        0 <= k <= s.len(),
        forall|i: int| k <= i < s.len() ==> spec_is_ws(s[i]),
        k > 0 ==> !spec_is_ws(s[k - 1]),
    ensures
        spec_trim_end(s) == k,
    decreases s.len(),
{
    if s.len() > 0 {
        if k == s.len() {
        } else {
            lemma_trim_end_suffix(s.drop_last(), k);
        }
    }
}

fn is_ws(c: char) -> (r: bool)
    ensures
        r == spec_is_ws(c),
{
    c == ' ' || c == '\t' || c == '\n' || c == '\r' || c == '\u{b}' || c == '\u{c}'
}

/// Renders a short preview of transcript text: trimmed, newlines flattened,
/// truncated to 40 characters with a trailing ellipsis when longer.
pub fn format_preview_text(text: &str) -> (r: String)
    ensures
        r@ == spec_preview(spec_sanitized(text@)),
{
    let cs = chars_of(text);
    let n = cs.len();
    proof {
        lemma_trim_bounds(text@);
    }
    let mut start: usize = 0;
    while start < n && is_ws(cs[start])
        invariant
            n == cs@.len(),
            cs@ == text@,
            0 <= start <= n,
            forall|i: int| 0 <= i < start ==> spec_is_ws(text@[i]),
        decreases n - start,
    {
        start = start + 1;
    }
    proof {
        lemma_trim_start_prefix(text@, start as int);
    }
    let mut end: usize = n;
    while end > start && is_ws(cs[end - 1])
        invariant
            n == cs@.len(),
            cs@ == text@,
            start <= end <= n,
            forall|i: int| end <= i < n ==> spec_is_ws(text@[i]),
        decreases end,
    {
        end = end - 1;
    }
    let ghost body = spec_sanitized(text@);
    proof {
        if start == n {
            // fully whitespace: start == n, end == start
            assert(spec_trim_start(text@) == n);
            assert(body =~= text@.subrange(start as int, end as int).map_values(
                |c: char| if c == '\n' { ' ' } else { c },
            ));
        } else {
            assert(!spec_is_ws(text@[end - 1]));
            lemma_trim_end_suffix(text@, end as int);
            assert(body =~= text@.subrange(start as int, end as int).map_values(
                |c: char| if c == '\n' { ' ' } else { c },
            ));
        }
    }
    let mut out: String = String::new();
    let mut i: usize = start;
    let limit_end: usize = if end - start > PREVIEW_CHAR_LIMIT {
        start + PREVIEW_CHAR_LIMIT
    } else {
        end
    };
    while i < limit_end
        invariant
            n == cs@.len(),
            cs@ == text@,
            start <= i <= limit_end <= end <= n,
            limit_end - start <= PREVIEW_CHAR_LIMIT,
            body == text@.subrange(start as int, end as int).map_values(
                |c: char| if c == '\n' { ' ' } else { c },
            ),
            out@ =~= body.subrange(0, i - start),
        decreases limit_end - i,
    {
        let c = cs[i];
        let mapped = if c == '\n' {
            ' '
        } else {
            c
        };
        push_char(&mut out, mapped);
        i = i + 1;
        proof {
            assert(out@ =~= body.subrange(0, i - start));
        }
    }
    if end - start > PREVIEW_CHAR_LIMIT {
        push_char(&mut out, '\u{2026}');
        proof {
            assert(body.len() == end - start);
            assert(out@ =~= body.subrange(0, PREVIEW_CHAR_LIMIT as int).push('\u{2026}'));
        }
    } else {
        proof {
            assert(out@ =~= body);
        }
    }
    out
}

} // verus!
