//! Pronunciations keyed by normalized transcript tokens, parsed from a
//! CMU-style lexicon.

use vstd::prelude::*;

use crate::pronunciation::PronunciationError;
use crate::text::{chars_of, push_char, string_of};

verus! {

/// What normalization keeps of one character: ASCII letters are uppercased,
/// the apostrophe survives, everything else is dropped.
pub open spec fn spec_normalize_char(c: char) -> Seq<char> {
    if 'A' <= c <= 'Z' || c == '\'' {
        seq![c]
    } else if 'a' <= c <= 'z' {
        seq![((c as int) - 32) as char]
    } else {
        Seq::empty()
    }
}

/// Normalization of a whole token: per-character normalization,
/// concatenated.
pub open spec fn spec_normalize(s: Seq<char>) -> Seq<char>
    decreases s.len(),
{
    if s.len() == 0 {
        Seq::empty()
    } else {
        spec_normalize_char(s[0]) + spec_normalize(s.drop_first())
    }
}

proof fn lemma_normalize_snoc(s: Seq<char>, c: char)
    ensures
        spec_normalize(s.push(c)) == spec_normalize(s) + spec_normalize_char(c),
    decreases s.len(),
{
    if s.len() == 0 {
        assert(s.push(c).drop_first() =~= Seq::<char>::empty());
        assert(spec_normalize(Seq::<char>::empty()) =~= Seq::<char>::empty());
        assert(spec_normalize(s.push(c)) =~= spec_normalize_char(c));
        assert(spec_normalize(s) + spec_normalize_char(c) =~= spec_normalize_char(c));
    } else {
        assert(s.push(c).drop_first() =~= s.drop_first().push(c));
        lemma_normalize_snoc(s.drop_first(), c);
        assert(spec_normalize(s.push(c)) =~= spec_normalize(s) + spec_normalize_char(c));
    }
}

/// Normalizes a transcript token by removing punctuation and uppercasing;
/// `None` when nothing survives.
pub fn normalize_token(token: &str) -> (r: Option<String>)
    ensures
        match r {
            Some(s) => s@ == spec_normalize(token@) && s@.len() > 0,
            None => spec_normalize(token@).len() == 0,
        },
{
    let cs = chars_of(token);
    let mut out: String = String::new();
    let n = cs.len();
    for i in 0..n
        invariant
            n == cs@.len(),
            cs@ == token@,
            out@ == spec_normalize(token@.subrange(0, i as int)),
    {
        let c = cs[i];
        proof {
            assert(token@.subrange(0, i + 1) =~= token@.subrange(0, i as int).push(token@[i as int]));
            lemma_normalize_snoc(token@.subrange(0, i as int), token@[i as int]);
        }
        if 'A' <= c && c <= 'Z' {
            push_char(&mut out, c);
        } else if 'a' <= c && c <= 'z' {
            let up = (((c as u32) - 32) as u8) as char;
            assert(up == (((c as int) - 32) as char));
            push_char(&mut out, up);
        } else if c == '\'' {
            push_char(&mut out, c);
        }
        proof {
            assert(out@ =~= spec_normalize(token@.subrange(0, i + 1)));
        }
    }
    proof {
        assert(token@.subrange(0, token@.len() as int) =~= token@);
    }
    if out.unicode_len() == 0 {
        None
    } else {
        Some(out)
    }
}

/// Index of the first `(` in a word, or its length: a CMU lexicon variant
/// marker like `(2)` is cut off.
pub open spec fn spec_variant_cut(s: Seq<char>) -> int
    decreases s.len(),
{
    if s.len() == 0 {
        0int
    } else if s[0] == '(' {
        0int
    } else {
        1 + spec_variant_cut(s.drop_first())
    }
}

/// Cuts a raw lexicon word at its variant marker.
pub fn trim_variant(raw_word: &Vec<char>) -> (r: Vec<char>)
    ensures
        r@ == raw_word@.subrange(0, spec_variant_cut(raw_word@)),
{
    let n = raw_word.len();
    let mut out: Vec<char> = Vec::new();
    let mut i: usize = 0;
    while i < n
        invariant
            n == raw_word@.len(),
            i <= n,
            out@ == raw_word@.subrange(0, i as int),
            forall|k: int| 0 <= k < i ==> raw_word@[k] != '(',
        decreases n - i,
    {
        if raw_word[i] == '(' {
            proof {
                lemma_variant_cut_at(raw_word@, i as int);
            }
            return out;
        }
        out.push(raw_word[i]);
        i = i + 1;
        proof {
            assert(out@ =~= raw_word@.subrange(0, i as int));
        }
    }
    proof {
        lemma_variant_cut_none(raw_word@);
        assert(out@ =~= raw_word@.subrange(0, raw_word@.len() as int));
    }
    out
}

proof fn lemma_variant_cut_at(s: Seq<char>, i: int)
    requires
        0 <= i < s.len(),
        s[i] == '(',
        forall|k: int| 0 <= k < i ==> s[k] != '(',
    ensures
        spec_variant_cut(s) == i,
    decreases i,
{
    if i > 0 {
        lemma_variant_cut_at(s.drop_first(), i - 1);
    }
}

proof fn lemma_variant_cut_none(s: Seq<char>)
    requires
        forall|k: int| 0 <= k < s.len() ==> s[k] != '(',
    ensures
        spec_variant_cut(s) == s.len(),
    decreases s.len(),
{
    if s.len() > 0 {
        lemma_variant_cut_none(s.drop_first());
    }
}

/// One dictionary entry: a normalized key and its pronunciation variants.
#[derive(Debug, Clone)]
pub struct DictionaryEntry {
    pub key: String,
    pub variants: Vec<Vec<String>>,
}

/// Pronunciations keyed by normalized transcript tokens.
#[derive(Debug, Clone)]
pub struct PronunciationDictionary {
    entries: Vec<DictionaryEntry>,
}

/// Convenience alias for the pronunciation variants a lookup returns.
pub type PronunciationVariants = Vec<Vec<String>>;

/// Index of the first entry whose key reads `key`, if any.
pub open spec fn find_key(entries: Seq<DictionaryEntry>, key: Seq<char>) -> Option<int>
    decreases entries.len(),
{
    if entries.len() == 0 {
        None
    } else if entries[0].key@ == key {
        Some(0int)
    } else {
        match find_key(entries.drop_first(), key) {
            Option::None => None,
            Option::Some(i) => Some(i + 1),
        }
    }
}

proof fn lemma_find_key_props(entries: Seq<DictionaryEntry>, key: Seq<char>)
    ensures
        match find_key(entries, key) {
            Option::Some(i) => 0 <= i < entries.len() && entries[i].key@ == key,
            Option::None => forall|i: int|
                0 <= i < entries.len() ==> (#[trigger] entries[i]).key@ != key,
        },
    decreases entries.len(),
{
    if entries.len() > 0 && entries[0].key@ != key {
        let rest = entries.drop_first();
        lemma_find_key_props(rest, key);
        match find_key(rest, key) {
            Option::Some(i) => {
                assert(rest[i] == entries[i + 1]);
            },
            Option::None => {
                assert forall|i: int| 0 <= i < entries.len() implies (
                #[trigger] entries[i]).key@ != key by {
                    if i > 0 {
                        assert(rest[i - 1] == entries[i]);
                    }
                }
            },
        }
    }
}

impl PronunciationDictionary {
    /// The entry list, for contracts.
    pub closed spec fn spec_entries(&self) -> Seq<DictionaryEntry> {
        self.entries@
    }

    /// Invariant: keys are pairwise distinct and nonempty, and every entry
    /// holds at least one nonempty variant.
    pub open spec fn wf(&self) -> bool {
        &&& forall|i: int, j: int|
            0 <= i < j < self.spec_entries().len() ==> (#[trigger] self.spec_entries()[i]).key@
                != (#[trigger] self.spec_entries()[j]).key@
        &&& forall|i: int|
            0 <= i < self.spec_entries().len() ==> (#[trigger] self.spec_entries()[i]).key@.len()
                > 0 && self.spec_entries()[i].variants@.len() > 0
        &&& forall|i: int, k: int|
            0 <= i < self.spec_entries().len() && 0 <= k < (
            #[trigger] self.spec_entries()[i]).variants@.len() ==> (
            #[trigger] self.spec_entries()[i].variants@[k])@.len() > 0
    }

    /// Parses a CMU-style lexicon: one entry per line, the word first,
    /// its phonemes after it; `;` starts a comment line; a `(2)`-style
    /// suffix marks an alternative of the same word. Fails when a line
    /// normalizes to nothing, a word has no phonemes, or nothing is left.
    pub fn from_lexicon(data: &str) -> (res: Result<PronunciationDictionary, PronunciationError>)
        ensures
            res matches Ok(d) ==> d.wf() && d.spec_entries().len() > 0,
            match lex_fold(data@, Seq::empty()) {
                Ok(model) => if model.len() == 0 {
                    res matches Err(e) && e.spec_message()
                        == "bundled pronunciation dictionary contained no entries"@
                } else {
                    res matches Ok(d) && entries_model(d.spec_entries()) == model
                },
                Err(msg) => res matches Err(e) && e.spec_message() == msg,
            },
    {
        let cs = chars_of(data);
        let n = cs.len();
        let mut entries: Vec<DictionaryEntry> = Vec::new();
        let mut line_start: usize = 0;
        proof {
            assert(data@.subrange(0, n as int) =~= data@);
            assert(entries_model(entries@) =~= Seq::<LexEntry>::empty());
        }
        while line_start < n
            invariant
                n == cs@.len(),
                cs@ == data@,
                line_start <= n,
                dict_entries_wf(entries@),
                lex_fold(data@, Seq::empty()) == lex_fold(
                    data@.subrange(line_start as int, n as int),
                    entries_model(entries@),
                ),
            decreases n - line_start,
        {
            let mut line_end = line_start;
            while line_end < n && cs[line_end] != '\n'
                invariant
                    n == cs@.len(),
                    line_start <= line_end <= n,
                    forall|j: int| line_start <= j < line_end ==> cs@[j] != '\n',
                decreases n - line_end,
            {
                line_end = line_end + 1;
            }
            let ghost suffix = data@.subrange(line_start as int, n as int);
            let ghost e0 = line_end - line_start;
            let ghost model = entries_model(entries@);
            proof {
                assert forall|j: int| 0 <= j < e0 implies suffix[j] != '\n' by {
                    assert(suffix[j] == cs@[line_start + j]);
                }
                if e0 < suffix.len() {
                    assert(suffix[e0] == cs@[line_end as int]);
                }
                lemma_line_end_from(suffix, 0, e0);
                assert(suffix.subrange(0, e0) =~= data@.subrange(
                    line_start as int,
                    line_end as int,
                ));
            }
            let handled = push_line(&mut entries, &cs, line_start, line_end);
            if let Err(e) = handled {
                proof {
                    assert(lex_fold(suffix, model) == lex_line_step(model, suffix.subrange(
                        0,
                        e0,
                    )));
                }
                return Err(e);
            }
            proof {
                let next = entries_model(entries@);
                assert(lex_line_step(model, suffix.subrange(0, e0)) == Ok::<
                    Seq<LexEntry>,
                    Seq<char>,
                >(next));
                if e0 + 1 <= suffix.len() {
                    assert(lex_fold(suffix, model) == lex_fold(
                        suffix.subrange(e0 + 1, suffix.len() as int),
                        next,
                    ));
                    assert(suffix.subrange(e0 + 1, suffix.len() as int) =~= data@.subrange(
                        line_end + 1,
                        n as int,
                    ));
                } else {
                    assert(lex_fold(suffix, model) == Ok::<Seq<LexEntry>, Seq<char>>(next));
                    assert(data@.subrange(n as int, n as int).len() == 0);
                }
            }
            line_start = if line_end < n {
                line_end + 1
            } else {
                n
            };
        }
        proof {
            assert(data@.subrange(n as int, n as int).len() == 0);
            assert(lex_fold(data@, Seq::empty()) == Ok::<Seq<LexEntry>, Seq<char>>(
                entries_model(entries@),
            ));
        }
        if entries.len() == 0 {
            return Err(
                PronunciationError::new("bundled pronunciation dictionary contained no entries"),
            );
        }
        Ok(PronunciationDictionary { entries })
    }

    /// A dictionary built from the bundled starter lexicon, with the same
    /// parse semantics as `from_lexicon`.
    pub fn shared() -> (res: Result<PronunciationDictionary, PronunciationError>)
        ensures
            res matches Ok(d) ==> d.wf() && d.spec_entries().len() > 0,
            match lex_fold(BUNDLED_LEXICON@, Seq::empty()) {
                Ok(model) => if model.len() == 0 {
                    res matches Err(e) && e.spec_message()
                        == "bundled pronunciation dictionary contained no entries"@
                } else {
                    res matches Ok(d) && entries_model(d.spec_entries()) == model
                },
                Err(msg) => res matches Err(e) && e.spec_message() == msg,
            },
    {
        Self::from_lexicon(BUNDLED_LEXICON)
    }

    /// Looks up pronunciations for a single token, returning all known
    /// variants of the normalized token; says exactly why a lookup fails.
    pub fn lookup(&self, token: &str) -> (res: Result<PronunciationVariants, PronunciationError>)
        requires
            self.wf(),
        ensures
            res is Ok <==> (spec_normalize(token@).len() > 0 && find_key(
                self.spec_entries(),
                spec_normalize(token@),
            ) is Some),
            res matches Ok(v) ==> (find_key(self.spec_entries(), spec_normalize(token@)) matches
                Some(i) && variants_like(v@, self.spec_entries()[i].variants@)),
            res matches Err(e) ==> e.spec_message() == (if spec_normalize(token@).len() == 0 {
                lookup_normalize_error(token@)
            } else {
                lookup_missing_error(token@)
            }),
    {
        let normalized = match normalize_token(token) {
            Some(key) => key,
            None => {
                let mut message = "unable to normalize token \"".to_owned();
                message.append(token);
                message.append("\" for pronunciation lookup");
                proof {
                    reveal_strlit("unable to normalize token \"");
                    reveal_strlit("\" for pronunciation lookup");
                }
                return Err(PronunciationError::new(message.as_str()));
            },
        };
        let count = self.entries.len();
        let mut idx: usize = 0;
        while idx < count
            invariant
                self.wf(),
                count == self.spec_entries().len(),
                idx <= count,
                normalized@ == spec_normalize(token@),
                normalized@.len() > 0,
                forall|k: int|
                    0 <= k < idx ==> (#[trigger] self.spec_entries()[k]).key@ != normalized@,
            decreases count - idx,
        {
            if string_equal(&self.entries[idx].key, &normalized) {
                proof {
                    assert(self.spec_entries()[idx as int].key@ == normalized@);
                    assert(normalized@ == spec_normalize(token@));
                    lemma_find_key_first(self.spec_entries(), normalized@, idx as int);
                    assert(find_key(self.spec_entries(), normalized@) == Some(idx as int));
                    assert(find_key(self.spec_entries(), spec_normalize(token@)) == Some(
                        idx as int,
                    ));
                }
                let variants = copy_variants(&self.entries[idx].variants);
                proof {
                    assert(variants_like(variants@, self.spec_entries()[idx as int].variants@));
                }
                return Ok(variants);
            }
            idx = idx + 1;
        }
        proof {
            lemma_find_key_props(self.spec_entries(), normalized@);
        }
        let mut message = "no pronunciation for \"".to_owned();
        message.append(token);
        message.append("\"");
        proof {
            reveal_strlit("no pronunciation for \"");
            reveal_strlit("\"");
        }
        Err(PronunciationError::new(message.as_str()))
    }

    /// Whether `token` resolves in this dictionary.
    pub open spec fn spec_resolves(&self, token: Seq<char>) -> bool {
        spec_normalize(token).len() > 0 && find_key(self.spec_entries(), spec_normalize(token))
            is Some
    }

    /// Maps a sequence of transcript tokens into pronunciation variants:
    /// entry `i` of the result holds the variants of token `i`; the first
    /// failing token's error is handed back.
    pub fn map_tokens(&self, tokens: &Vec<String>) -> (res: Result<
        Vec<PronunciationVariants>,
        PronunciationError,
    >)
        requires
            self.wf(),
        ensures
            res is Ok <==> forall|i: int|
                0 <= i < tokens@.len() ==> self.spec_resolves((#[trigger] tokens@[i])@),
            res matches Ok(v) ==> v@.len() == tokens@.len() && forall|i: int|
                0 <= i < tokens@.len() ==> (find_key(
                    self.spec_entries(),
                    spec_normalize(tokens@[i]@),
                ) matches Some(e) && variants_like((#[trigger] v@[i])@,
                    self.spec_entries()[e].variants@)),
            res matches Err(er) ==> exists|i: int|
                0 <= i < tokens@.len() && !self.spec_resolves((#[trigger] tokens@[i])@) && (
                forall|k: int| 0 <= k < i ==> self.spec_resolves((#[trigger] tokens@[k])@))
                    && er.spec_message() == (if spec_normalize(tokens@[i]@).len() == 0 {
                    lookup_normalize_error(tokens@[i]@)
                } else {
                    lookup_missing_error(tokens@[i]@)
                }),
    {
        let n = tokens.len();
        let mut out: Vec<PronunciationVariants> = Vec::new();
        for i in 0..n
            invariant
                self.wf(),
                n == tokens@.len(),
                out@.len() == i,
                forall|k: int| 0 <= k < i ==> self.spec_resolves((#[trigger] tokens@[k])@),
                forall|k: int|
                    0 <= k < i ==> (find_key(
                        self.spec_entries(),
                        spec_normalize(tokens@[k]@),
                    ) matches Some(e) && variants_like((#[trigger] out@[k])@,
                        self.spec_entries()[e].variants@)),
        {
            match self.lookup(tokens[i].as_str()) {
                Ok(v) => {
                    out.push(v);
                },
                Err(e) => {
                    return Err(e);
                },
            }
        }
        Ok(out)
    }
}

/// The message when a token normalizes to nothing.
pub open spec fn lookup_normalize_error(token: Seq<char>) -> Seq<char> {
    "unable to normalize token \""@ + token + "\" for pronunciation lookup"@
}

/// The message when a normalized token has no entry.
pub open spec fn lookup_missing_error(token: Seq<char>) -> Seq<char> {
    "no pronunciation for \""@ + token + "\""@
}

proof fn lemma_find_key_first(entries: Seq<DictionaryEntry>, key: Seq<char>, i: int)
    requires
        0 <= i < entries.len(),
        entries[i].key@ == key,
        forall|k: int| 0 <= k < i ==> (#[trigger] entries[k]).key@ != key,
    ensures
        find_key(entries, key) == Some(i),
    decreases i,
{
    if i > 0 {
        let rest = entries.drop_first();
        assert(rest[i - 1] == entries[i]);
        assert forall|k: int| 0 <= k < i - 1 implies (#[trigger] rest[k]).key@ != key by {
            assert(rest[k] == entries[k + 1]);
        }
        lemma_find_key_first(rest, key, i - 1);
    }
}

/// The well-formedness of a growing entry list.
pub open spec fn dict_entries_wf(entries: Seq<DictionaryEntry>) -> bool {
    &&& forall|i: int, j: int|
        0 <= i < j < entries.len() ==> (#[trigger] entries[i]).key@ != (
        #[trigger] entries[j]).key@
    &&& forall|i: int|
        0 <= i < entries.len() ==> (#[trigger] entries[i]).key@.len() > 0
            && entries[i].variants@.len() > 0
    &&& forall|i: int, k: int|
        0 <= i < entries.len() && 0 <= k < (#[trigger] entries[i]).variants@.len() ==> (
        #[trigger] entries[i].variants@[k])@.len() > 0
}

/// Character-for-character string comparison.
fn string_equal(a: &String, b: &String) -> (r: bool)
    ensures
        r == (a@ == b@),
{
    let na = a.unicode_len();
    let nb = b.unicode_len();
    if na != nb {
        return false;
    }
    let sa = a.as_str();
    let sb = b.as_str();
    for i in 0..na
        invariant
            na == a@.len(),
            na == b@.len(),
            sa@ == a@,
            sb@ == b@,
            forall|k: int| 0 <= k < i ==> a@[k] == b@[k],
    {
        if sa.get_char(i) != sb.get_char(i) {
            return false;
        }
    }
    proof {
        assert(a@ =~= b@);
    }
    true
}

fn copy_string(s: &String) -> (r: String)
    ensures
        r@ == s@,
{
    s.as_str().to_owned()
}

/// Two pronunciations hold the same phoneme strings.
pub open spec fn row_like(a: Vec<String>, b: Vec<String>) -> bool {
    &&& a@.len() == b@.len()
    &&& forall|k: int| 0 <= k < a@.len() ==> (#[trigger] a@[k])@ == b@[k]@
}

/// Two variant lists hold the same pronunciations, character for
/// character.
pub open spec fn variants_like(a: Seq<Vec<String>>, b: Seq<Vec<String>>) -> bool {
    &&& a.len() == b.len()
    &&& forall|i: int| 0 <= i < a.len() ==> row_like(#[trigger] a[i], b[i])
}

fn copy_variants(v: &Vec<Vec<String>>) -> (r: Vec<Vec<String>>)
    ensures
        variants_like(r@, v@),
{
    let n = v.len();
    let mut out: Vec<Vec<String>> = Vec::new();
    for i in 0..n
        invariant
            n == v@.len(),
            out@.len() == i,
            variants_like(out@, v@.subrange(0, i as int)),
    {
        let row = copy_row(&v[i]);
        out.push(row);
        proof {
            assert(variants_like(out@, v@.subrange(0, i + 1)));
        }
    }
    proof {
        assert(v@.subrange(0, v@.len() as int) =~= v@);
        assert(variants_like(out@, v@));
    }
    out
}

fn copy_row(v: &Vec<String>) -> (r: Vec<String>)
    ensures
        row_like(r, *v),
{
    let m = v.len();
    let mut row: Vec<String> = Vec::new();
    let mut j: usize = 0;
    while j < m
        invariant
            m == v@.len(),
            j <= m,
            row@.len() == j,
            forall|k: int| 0 <= k < j ==> (#[trigger] row@[k])@ == v@[k]@,
        decreases m - j,
    {
        row.push(copy_string(&v[j]));
        j = j + 1;
    }
    proof {
        assert forall|k: int| 0 <= k < row@.len() implies (#[trigger] row@[k])@ == v@[k]@ by {
        }
        assert(row_like(row, *v));
    }
    row
}

/// Spec-level model of one dictionary entry: a key and its pronunciation
/// variants, as plain character sequences.
#[verifier::ext_equal]
pub struct LexEntry {
    pub key: Seq<char>,
    pub variants: Seq<Seq<Seq<char>>>,
}

/// Whitespace inside a lexicon line.
pub open spec fn lex_ws(c: char) -> bool {
    c == ' ' || c == '\t' || c == '\r'
}

/// The whitespace-separated tokens of a line, scanned left to right with
/// the run collected so far and the tokens already closed.
pub open spec fn lex_tokens_rec(
    line: Seq<char>,
    i: int,
    cur: Seq<char>,
    acc: Seq<Seq<char>>,
) -> Seq<Seq<char>>
    decreases line.len() - i,
{
    if i < 0 || i >= line.len() {
        if cur.len() > 0 {
            acc.push(cur)
        } else {
            acc
        }
    } else if lex_ws(line[i]) {
        if cur.len() > 0 {
            lex_tokens_rec(line, i + 1, Seq::empty(), acc.push(cur))
        } else {
            lex_tokens_rec(line, i + 1, Seq::empty(), acc)
        }
    } else {
        lex_tokens_rec(line, i + 1, cur.push(line[i]), acc)
    }
}

/// The whitespace-separated tokens of a line.
pub open spec fn lex_tokens(line: Seq<char>) -> Seq<Seq<char>> {
    lex_tokens_rec(line, 0, Seq::empty(), Seq::empty())
}

/// The normalized key a line's word yields: the variant marker cut off,
/// then normalization.
pub open spec fn lex_line_key(line: Seq<char>) -> Seq<char> {
    let w = lex_tokens(line)[0];
    spec_normalize(w.subrange(0, spec_variant_cut(w)))
}

/// Where a model key sits, if present (first match).
pub open spec fn model_find(model: Seq<LexEntry>, key: Seq<char>) -> Option<int>
    decreases model.len(),
{
    if model.len() == 0 {
        None
    } else if model[0].key == key {
        Some(0int)
    } else {
        match model_find(model.drop_first(), key) {
            Option::None => None,
            Option::Some(i) => Some(i + 1),
        }
    }
}

/// Adds one pronunciation under its key: appended to the key's variants
/// when the key exists, else as a new trailing entry.
pub open spec fn model_upsert(
    model: Seq<LexEntry>,
    key: Seq<char>,
    variant: Seq<Seq<char>>,
) -> Seq<LexEntry> {
    match model_find(model, key) {
        Option::Some(i) => model.update(
            i,
            LexEntry { key: model[i].key, variants: model[i].variants.push(variant) },
        ),
        Option::None => model.push(LexEntry { key, variants: seq![variant] }),
    }
}

/// What one lexicon line does to the model: blank and `;`-comment lines
/// are skipped; a word whose normalization is empty, or one without
/// phonemes, stops the parse with that error text; otherwise the word's
/// pronunciation is recorded under its normalized key.
pub open spec fn lex_line_step(model: Seq<LexEntry>, line: Seq<char>) -> Result<
    Seq<LexEntry>,
    Seq<char>,
> {
    let toks = lex_tokens(line);
    if toks.len() == 0 || toks[0][0] == ';' {
        Ok(model)
    } else if lex_line_key(line).len() == 0 {
        Err("lexicon line produced empty normalization"@)
    } else if toks.len() < 2 {
        Err("lexicon line missing phoneme sequence"@)
    } else {
        Ok(model_upsert(model, lex_line_key(line), toks.drop_first()))
    }
}

/// Offset of the first line break at or after `i` (or the text's length).
pub open spec fn lex_line_end(s: Seq<char>, i: int) -> int
    decreases s.len() - i,
{
    if i < 0 || i >= s.len() {
        s.len() as int
    } else if s[i] == '\n' {
        i
    } else {
        lex_line_end(s, i + 1)
    }
}

proof fn lemma_line_end_bounds(s: Seq<char>, i: int)
    requires
        0 <= i <= s.len(),
    ensures
        i <= lex_line_end(s, i) <= s.len(),
    decreases s.len() - i,
{
    if i < s.len() && s[i] != '\n' {
        lemma_line_end_bounds(s, i + 1);
    }
}

proof fn lemma_line_end_from(s: Seq<char>, i: int, k: int)
    requires
        0 <= i <= k <= s.len(),
        forall|j: int| i <= j < k ==> s[j] != '\n',
        k < s.len() ==> s[k] == '\n',
    ensures
        lex_line_end(s, i) == k,
    decreases k - i,
{
    if i < k {
        lemma_line_end_from(s, i + 1, k);
    }
}

/// The whole lexicon text folded line by line from an initial model.
pub open spec fn lex_fold(s: Seq<char>, model: Seq<LexEntry>) -> Result<
    Seq<LexEntry>,
    Seq<char>,
>
    decreases s.len() via lex_fold_dec
{
    if s.len() == 0 {
        Ok(model)
    } else {
        let e = lex_line_end(s, 0);
        match lex_line_step(model, s.subrange(0, e)) {
            Ok(next) => if e + 1 <= s.len() {
                lex_fold(s.subrange(e + 1, s.len() as int), next)
            } else {
                Ok(next)
            },
            Err(msg) => Err(msg),
        }
    }
}

#[via_fn]
proof fn lex_fold_dec(s: Seq<char>, model: Seq<LexEntry>) {
    if s.len() > 0 {
        lemma_line_end_bounds(s, 0);
    }
}

/// The token list a vector of character runs models.
pub open spec fn toks_model(ts: Seq<Vec<char>>) -> Seq<Seq<char>> {
    ts.map_values(|v: Vec<char>| v@)
}

/// The spec-level model of a dictionary entry.
pub open spec fn entry_model(e: DictionaryEntry) -> LexEntry {
    LexEntry {
        key: e.key@,
        variants: e.variants@.map_values(
            |v: Vec<String>| v@.map_values(|s: String| s@),
        ),
    }
}

/// The spec-level model of an entry list.
pub open spec fn entries_model(entries: Seq<DictionaryEntry>) -> Seq<LexEntry> {
    entries.map_values(|e: DictionaryEntry| entry_model(e))
}

proof fn lemma_model_find_first(model: Seq<LexEntry>, key: Seq<char>, i: int)
    requires
        0 <= i < model.len(),
        model[i].key == key,
        forall|k: int| 0 <= k < i ==> (#[trigger] model[k]).key != key,
    ensures
        model_find(model, key) == Some(i),
    decreases i,
{
    if i > 0 {
        let rest = model.drop_first();
        assert(rest[i - 1] == model[i]);
        assert forall|k: int| 0 <= k < i - 1 implies (#[trigger] rest[k]).key != key by {
            assert(rest[k] == model[k + 1]);
        }
        lemma_model_find_first(rest, key, i - 1);
    }
}

proof fn lemma_model_find_none(model: Seq<LexEntry>, key: Seq<char>)
    requires
        forall|k: int| 0 <= k < model.len() ==> (#[trigger] model[k]).key != key,
    ensures
        model_find(model, key) is None,
    decreases model.len(),
{
    if model.len() > 0 {
        let rest = model.drop_first();
        assert forall|k: int| 0 <= k < rest.len() implies (#[trigger] rest[k]).key != key by {
            assert(rest[k] == model[k + 1]);
        }
        lemma_model_find_none(rest, key);
    }
}

/// Parses one lexicon line into the entry list, exactly as
/// `lex_line_step` describes: comments and blank lines are skipped, a word
/// without phonemes or with an empty normalization is an error, and a
/// repeated key gains one more variant.
fn push_line(
    entries: &mut Vec<DictionaryEntry>,
    cs: &Vec<char>,
    line_start: usize,
    line_end: usize,
) -> (res: Result<(), PronunciationError>)
    requires
        line_start <= line_end <= cs@.len(),
        dict_entries_wf(old(entries)@),
    ensures
        dict_entries_wf(final(entries)@),
        match lex_line_step(
            entries_model(old(entries)@),
            cs@.subrange(line_start as int, line_end as int),
        ) {
            Ok(next) => res is Ok && entries_model(final(entries)@) == next,
            Err(msg) => (res matches Err(e) && e.spec_message() == msg) && final(entries)@
                == old(entries)@,
        },
{
    let ghost line = cs@.subrange(line_start as int, line_end as int);
    // split the line into whitespace-separated tokens, mirroring the
    // token scan `lex_tokens` describes
    let mut tokens: Vec<Vec<char>> = Vec::new();
    let mut i = line_start;
    let mut current: Vec<char> = Vec::new();
    proof {
        assert(toks_model(tokens@) =~= Seq::<Seq<char>>::empty());
        assert(current@ =~= Seq::<char>::empty());
    }
    while i < line_end
        invariant
            line == cs@.subrange(line_start as int, line_end as int),
            line_start <= i <= line_end <= cs@.len(),
            lex_tokens(line) == lex_tokens_rec(
                line,
                i - line_start,
                current@,
                toks_model(tokens@),
            ),
            forall|k: int| 0 <= k < tokens@.len() ==> (#[trigger] tokens@[k])@.len() > 0,
        decreases line_end - i,
    {
        let ghost rel = i - line_start;
        let c = cs[i];
        proof {
            assert(line[rel] == cs@[i as int]);
        }
        if c == ' ' || c == '\t' || c == '\r' {
            if current.len() > 0 {
                let ghost pre_model = toks_model(tokens@);
                let ghost pre_cur = current@;
                tokens.push(current);
                current = Vec::new();
                proof {
                    assert(toks_model(tokens@) =~= pre_model.push(pre_cur));
                    assert(current@ =~= Seq::<char>::empty());
                    assert(lex_tokens_rec(line, rel, pre_cur, pre_model) == lex_tokens_rec(
                        line,
                        rel + 1,
                        Seq::empty(),
                        pre_model.push(pre_cur),
                    ));
                }
            } else {
                proof {
                    assert(current@ =~= Seq::<char>::empty());
                    assert(lex_tokens_rec(line, rel, current@, toks_model(tokens@))
                        == lex_tokens_rec(line, rel + 1, Seq::empty(), toks_model(tokens@)));
                }
            }
        } else {
            let ghost pre_cur = current@;
            current.push(c);
            proof {
                assert(current@ =~= pre_cur.push(line[rel]));
                assert(lex_tokens_rec(line, rel, pre_cur, toks_model(tokens@))
                    == lex_tokens_rec(line, rel + 1, pre_cur.push(line[rel]), toks_model(
                    tokens@,
                )));
            }
        }
        i = i + 1;
    }
    if current.len() > 0 {
        let ghost pre_model = toks_model(tokens@);
        let ghost pre_cur = current@;
        tokens.push(current);
        proof {
            assert(toks_model(tokens@) =~= pre_model.push(pre_cur));
        }
    }
    let ghost toks = lex_tokens(line);
    proof {
        assert(toks == toks_model(tokens@));
    }
    if tokens.len() == 0 {
        return Ok(());
    }
    if tokens[0].len() > 0 && tokens[0][0] == ';' {
        proof {
            assert(toks[0] == tokens@[0]@);
        }
        return Ok(());
    }
    proof {
        assert(toks[0] == tokens@[0]@);
        assert(toks[0][0] != ';');
    }
    // the first token is the word; the rest are its phonemes
    let trimmed = trim_variant(&tokens[0]);
    let word = crate::text::string_of(&trimmed);
    proof {
        assert(word@ == toks[0].subrange(0, spec_variant_cut(toks[0])));
    }
    let normalized = match normalize_token(word.as_str()) {
        Some(key) => key,
        None => {
            proof {
                assert(lex_line_key(line).len() == 0);
            }
            return Err(PronunciationError::new("lexicon line produced empty normalization"));
        },
    };
    proof {
        assert(normalized@ == lex_line_key(line));
    }
    if tokens.len() < 2 {
        return Err(PronunciationError::new("lexicon line missing phoneme sequence"));
    }
    let mut phonemes: Vec<String> = Vec::new();
    let count = tokens.len();
    let mut t: usize = 1;
    while t < count
        invariant
            count == tokens@.len(),
            1 <= t <= count,
            phonemes@.len() == t - 1,
            forall|k: int| 0 <= k < tokens@.len() ==> (#[trigger] tokens@[k])@.len() > 0,
            forall|k: int| 0 <= k < phonemes@.len() ==> (#[trigger] phonemes@[k])@.len() > 0,
            forall|k: int|
                0 <= k < phonemes@.len() ==> (#[trigger] phonemes@[k])@ == tokens@[k + 1]@,
        decreases count - t,
    {
        phonemes.push(crate::text::string_of(&tokens[t]));
        t = t + 1;
    }
    let ghost phon_model = phonemes@.map_values(|s: String| s@);
    let ghost before_model = entries_model(old(entries)@);
    let ghost upserted = model_upsert(before_model, normalized@, phon_model);
    proof {
        assert(phon_model =~= toks.drop_first());
        assert(lex_line_step(before_model, line) == Ok::<Seq<LexEntry>, Seq<char>>(upserted));
    }
    // merge into an existing entry, or append a new one
    let total = entries.len();
    let mut idx: usize = 0;
    while idx < total
        invariant
            total == entries@.len(),
            idx <= total,
            entries@ == old(entries)@,
            dict_entries_wf(entries@),
            normalized@.len() > 0,
            phonemes@.len() > 0,
            forall|k: int| 0 <= k < phonemes@.len() ==> (#[trigger] phonemes@[k])@.len() > 0,
            forall|k: int| 0 <= k < idx ==> (#[trigger] entries@[k]).key@ != normalized@,
            before_model == entries_model(old(entries)@),
            phon_model == phonemes@.map_values(|s: String| s@),
            upserted == model_upsert(before_model, normalized@, phon_model),
            lex_line_step(before_model, line) == Ok::<Seq<LexEntry>, Seq<char>>(upserted),
            line == cs@.subrange(line_start as int, line_end as int),
        decreases total - idx,
    {
        if string_equal(&entries[idx].key, &normalized) {
            let key_copy = copy_string(&entries[idx].key);
            let mut variants = copy_variants(&entries[idx].variants);
            variants.push(phonemes);
            entries.set(idx, DictionaryEntry { key: key_copy, variants });
            proof {
                let es = entries@;
                let before = old(entries)@;
                assert forall|a: int, b: int| 0 <= a < b < es.len() implies (
                #[trigger] es[a]).key@ != (#[trigger] es[b]).key@ by {
                    assert(es[a].key@ == before[a].key@);
                    assert(es[b].key@ == before[b].key@);
                }
                assert forall|a: int| 0 <= a < es.len() implies (#[trigger] es[a]).key@.len() > 0
                    && es[a].variants@.len() > 0 by {
                    assert(es[a].key@ == before[a].key@);
                }
                assert forall|a: int, k: int|
                    0 <= a < es.len() && 0 <= k < (#[trigger] es[a]).variants@.len() implies (
                #[trigger] es[a].variants@[k])@.len() > 0 by {
                    if a == idx && k < before[a].variants@.len() {
                        assert(es[a].variants@[k]@.len() == before[a].variants@[k]@.len());
                    }
                }
                // the model sees the same first-match update
                assert forall|k: int| 0 <= k < idx implies (#[trigger] before_model[k]).key
                    != normalized@ by {
                    assert(before_model[k].key == before[k].key@);
                }
                assert(before_model[idx as int].key == normalized@);
                lemma_model_find_first(before_model, normalized@, idx as int);
                assert forall|a: int| 0 <= a < es.len() implies entries_model(es)[a] =~~= (
                #[trigger] upserted[a]) by {
                    if a == idx {
                        assert(entry_model(es[a]).key =~= before_model[a].key);
                        assert(entry_model(es[a]).variants =~~= before_model[a].variants.push(
                            phon_model,
                        ));
                    } else {
                        assert(es[a] == before[a]);
                    }
                }
                assert(entries_model(es) =~~= upserted);
            }
            return Ok(());
        }
        idx = idx + 1;
    }
    let mut variants: Vec<Vec<String>> = Vec::new();
    variants.push(phonemes);
    entries.push(DictionaryEntry { key: normalized, variants });
    proof {
        let es = entries@;
        let before = old(entries)@;
        assert forall|a: int, b: int| 0 <= a < b < es.len() implies (#[trigger] es[a]).key@ != (
        #[trigger] es[b]).key@ by {
            if b < before.len() {
                assert(es[a] == before[a] && es[b] == before[b]);
            } else {
                assert(es[b].key@ == before[a].key@ ==> false);
            }
        }
        assert forall|k: int| 0 <= k < before_model.len() implies (
        #[trigger] before_model[k]).key != normalized@ by {
            assert(before_model[k].key == before[k].key@);
        }
        lemma_model_find_none(before_model, normalized@);
        assert forall|a: int| 0 <= a < es.len() implies entries_model(es)[a] =~~= (
        #[trigger] upserted[a]) by {
            if a < before.len() {
                assert(es[a] == before[a]);
            } else {
                assert(entry_model(es[a]).key =~= normalized@);
                assert(entry_model(es[a]).variants =~~= seq![phon_model]);
            }
        }
        assert(entries_model(es) =~~= upserted);
    }
    Ok(())
}

/// A compact starter lexicon bundled with the library, in CMU format.
pub const BUNDLED_LEXICON: &'static str = "\
;;; starter lexicon (CMU phone set)\n\
CAN'T  K AE1 N T\n\
COMPARE  K AH0 M P EH1 R\n\
HELLO  HH AH0 L OW1\n\
LEARN  L ER1 N\n\
PRONUNCIATION  P R OW2 N AH0 N S IY0 EY1 SH AH0 N\n\
SPEECH  S P IY1 CH\n\
TIME  T AY1 M\n\
VOICE  V OY1 S\n\
WITH  W IH1 TH\n\
WITH(2)  W IH1 DH\n\
WORD  W ER1 D\n";

} // verus!

