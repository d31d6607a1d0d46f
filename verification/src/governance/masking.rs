//! Masking sensitive values: the algorithms, their settings, and how a
//! value is masked by a rule.

use vstd::prelude::*;
use sha2::Digest;
use crate::runtime::{new_uuid, now_millis};
use crate::text::{utf8_len, utf8_char_len, byte_len, push_char};

verus! {

broadcast use vstd::seq::group_seq_axioms;

/// How a value is masked.
#[derive(Debug, Clone, Copy, PartialEq, Eq, Structural)]
pub enum MaskingAlgorithm {
    /// Replaced by a fixed text.
    Replace,
    /// Its middle overwritten with a mask character.
    Mask,
    /// Cut down to its first characters.
    Generalize,
    /// Removed.
    Delete,
    /// Replaced by its SHA-256 digest.
    Encrypt,
}

/// The settings of the masking algorithms; an unset one takes its default
/// when a value is masked.
#[derive(Debug, Clone)]
pub struct MaskingConfig {
    pub replace_with: Option<String>,
    pub mask_char: Option<char>,
    pub mask_prefix: Option<usize>,
    pub mask_suffix: Option<usize>,
    pub generalize_level: Option<u32>,
    pub encryption_key: Option<String>,
}

impl MaskingConfig {
    /// Replace with `***`, mask with `*` keeping nothing at either end,
    /// generalize at level 1, no key.
    pub fn default() -> (c: MaskingConfig)
        ensures
            c.replace_with matches Some(r) && r@ == "***"@,
            c.mask_char == Some('*'),
            c.mask_prefix == Some(0usize),
            c.mask_suffix == Some(0usize),
            c.generalize_level == Some(1u32),
            c.encryption_key is None,
    {
        MaskingConfig {
            replace_with: Some(String::from_str("***")),
            mask_char: Some('*'),
            mask_prefix: Some(0),
            mask_suffix: Some(0),
            generalize_level: Some(1),
            encryption_key: None,
        }
    }
}

/// A masking rule: the fields it applies to (a pattern), the algorithm and
/// its settings. Times are milliseconds since the epoch.
#[derive(Debug, Clone)]
pub struct MaskingRule {
    pub id: String,
    pub name: String,
    pub description: String,
    pub field_pattern: String,
    pub algorithm: MaskingAlgorithm,
    pub config: MaskingConfig,
    pub enabled: bool,
    pub created_at: i64,
    pub updated_at: i64,
}

impl MaskingRule {
    /// An enabled rule with the default settings and a fresh id.
    pub fn new(name: String, description: String, field_pattern: String, algorithm: MaskingAlgorithm) -> (r: MaskingRule)
        ensures
            r.name == name,
            r.description == description,
            r.field_pattern == field_pattern,
            r.algorithm == algorithm,
            r.enabled,
            r.config.replace_with matches Some(x) && x@ == "***"@,
            r.config.mask_char == Some('*'),
            r.config.mask_prefix == Some(0usize),
            r.config.mask_suffix == Some(0usize),
            r.config.generalize_level == Some(1u32),
            r.config.encryption_key is None,
            r.created_at == r.updated_at,
            r.id@.len() == 36,
    {
        let now = now_millis();
        MaskingRule {
            id: new_uuid(),
            name,
            description,
            field_pattern,
            algorithm,
            config: MaskingConfig::default(),
            enabled: true,
            created_at: now,
            updated_at: now,
        }
    }

    /// The rule with these settings.
    pub fn with_config(self, config: MaskingConfig) -> (r: MaskingRule)
        ensures
            r == (MaskingRule { config, ..self }),
    {
        MaskingRule { config, ..self }
    }
}

/// `b` bytes into the UTF-8 text of `s` is the start of a character (or its
/// end).
pub open spec fn byte_boundary(s: Seq<char>, b: int) -> bool {
    exists|i: int| 0 <= i <= s.len() && #[trigger] utf8_len(s.take(i)) == b
}

/// The number of characters in the first `b` bytes of `s`, at a boundary.
pub open spec fn chars_in_bytes(s: Seq<char>, b: int) -> int {
    choose|i: int| 0 <= i <= s.len() && #[trigger] utf8_len(s.take(i)) == b
}

/// `n` copies of `c`.
pub open spec fn repeat_char(c: char, n: nat) -> Seq<char> {
    Seq::new(n, |_i: int| c)
}

/// The mask algorithm: with `len` the byte length of the text, a text of at
/// most `prefix + suffix` bytes becomes `len` mask characters; a longer one
/// keeps its first `prefix` and last `suffix` bytes and has the bytes
/// between replaced by as many mask characters.
pub open spec fn masked(data: Seq<char>, c: char, prefix: nat, suffix: nat) -> Seq<char> {
    let len = utf8_len(data);
    if len <= prefix + suffix {
        repeat_char(c, len)
    } else {
        data.take(chars_in_bytes(data, prefix as int)) + repeat_char(c, (len - prefix - suffix) as nat) + data.skip(
            chars_in_bytes(data, len - suffix),
        )
    }
}

/// The mask algorithm can cut the text where it must: when the text is
/// longer than `prefix + suffix` bytes, both cuts fall between characters.
pub open spec fn mask_cuts_ok(data: Seq<char>, prefix: nat, suffix: nat) -> bool {
    utf8_len(data) > prefix + suffix ==> byte_boundary(data, prefix as int) && byte_boundary(
        data,
        utf8_len(data) - suffix,
    )
}

/// The lowercase hex text of the SHA-256 digest of the bytes.
pub uninterp spec fn sha256_hex_text(bytes: Seq<u8>) -> Seq<char>;

/// The SHA-256 digest of the bytes in lowercase hex:
/// `sha2::Sha256::digest` written with `{:x}`: 32 bytes, 64 hex digits.
#[verifier::external_body]
pub(crate) fn sha256_hex(bytes: &[u8]) -> (r: String)
    ensures
        r@ == sha256_hex_text(bytes@),
        r@.len() == 64,
{
    format!("{:x}", sha2::Sha256::digest(bytes))
}

proof fn lemma_utf8_take_step(s: Seq<char>, i: int)
    requires
        0 <= i < s.len(),
    ensures
        utf8_len(s.take(i + 1)) == utf8_len(s.take(i)) + utf8_char_len(s[i]),
        utf8_char_len(s[i]) >= 1,
{
    assert(s.take(i + 1).drop_last() =~= s.take(i));
}

proof fn lemma_utf8_take_increasing(s: Seq<char>, i: int, j: int)
    requires
        0 <= i < j <= s.len(),
    ensures
        utf8_len(s.take(i)) < utf8_len(s.take(j)),
    decreases j - i,
{
    lemma_utf8_take_step(s, j - 1);
    if i < j - 1 {
        lemma_utf8_take_increasing(s, i, j - 1);
    }
}

/// `n` copies of `c`.
fn repeat(c: char, n: usize) -> (r: String)
    ensures
        r@ == repeat_char(c, n as nat),
{
    let mut r = String::new();
    let mut k: usize = 0;
    while k < n
        invariant
            k <= n,
            r@ == repeat_char(c, k as nat),
        decreases n - k,
    {
        push_char(&mut r, c);
        k = k + 1;
        assert(r@ =~= repeat_char(c, k as nat));
    }
    r
}

/// The number of characters in the first `b` bytes of `data`, where `b`
/// is a character boundary.
fn char_count_at(data: &str, b: usize) -> (r: usize)
    requires
        byte_boundary(data@, b as int),
    ensures
        r == chars_in_bytes(data@, b as int),
        r <= data@.len(),
{
    let n = data.unicode_len();
    let ghost w = chars_in_bytes(data@, b as int);
    let mut i: usize = 0;
    let mut acc: usize = 0;
    while acc < b
        invariant
            n == data@.len(),
            0 <= w <= n,
            utf8_len(data@.take(w)) == b,
            i <= w,
            acc == utf8_len(data@.take(i as int)),
        decreases n - i,
    {
        proof {
            if i as int == w {
                assert(false);
            }
            lemma_utf8_take_step(data@, i as int);
            if ((i + 1) as int) < w {
                lemma_utf8_take_increasing(data@, i as int + 1, w);
            }
        }
        let c = data.get_char(i);
        let cl: usize = if (c as u32) < 0x80 {
            1
        } else if (c as u32) < 0x800 {
            2
        } else if (c as u32) < 0x10000 {
            3
        } else {
            4
        };
        acc = acc + cl;
        i = i + 1;
    }
    proof {
        if (i as int) < w {
            lemma_utf8_take_increasing(data@, i as int, w);
        }
    }
    i
}

/// Masks the text by the mask algorithm with this character and these
/// byte counts kept at either end.
pub fn mask_text(data: &str, c: char, prefix: usize, suffix: usize) -> (r: String)
    requires
        mask_cuts_ok(data@, prefix as nat, suffix as nat),
    ensures
        r@ == masked(data@, c, prefix as nat, suffix as nat),
{
    let len = byte_len(data);
    if prefix >= len || len - prefix <= suffix {
        return repeat(c, len);
    }
    let a = char_count_at(data, prefix);
    let b = char_count_at(data, len - suffix);
    proof {
        if b < a {
            lemma_utf8_take_increasing(data@, b as int, a as int);
        }
    }
    let mut r = String::from_str(data.substring_char(0, a));
    let middle = repeat(c, len - prefix - suffix);
    r.append(middle.as_str());
    r.append(data.substring_char(b, data.unicode_len()));
    assert(data@.subrange(0, a as int) =~= data@.take(a as int));
    assert(data@.subrange(b as int, data@.len() as int) =~= data@.skip(b as int));
    r
}

/// The first `k` characters of the text, or all of it when shorter.
fn first_chars(data: &str, k: usize) -> (r: String)
    ensures
        r@ == data@.take(if data@.len() < k { data@.len() as int } else { k as int }),
{
    let n = data.unicode_len();
    let m = if n < k { n } else { k };
    let r = String::from_str(data.substring_char(0, m));
    assert(data@.subrange(0, m as int) =~= data@.take(m as int));
    r
}

/// What the rule's algorithm makes of the text: the replacement text (by
/// default `***`); the masked text (mask character `*`, nothing kept by
/// default); the first two characters and `***` at level 1, the first and
/// `***` at level 2, `***` at other levels; nothing; or the text's digest.
pub open spec fn mask_result(data: Seq<char>, rule: MaskingRule) -> Seq<char> {
    match rule.algorithm {
        MaskingAlgorithm::Replace => match rule.config.replace_with {
            Some(r) => r@,
            None => "***"@,
        },
        MaskingAlgorithm::Mask => masked(
            data,
            match rule.config.mask_char { Some(c) => c, None => '*' },
            match rule.config.mask_prefix { Some(p) => p as nat, None => 0 },
            match rule.config.mask_suffix { Some(s) => s as nat, None => 0 },
        ),
        MaskingAlgorithm::Generalize => {
            let level = match rule.config.generalize_level { Some(l) => l, None => 1 };
            if level == 1 {
                data.take(if data.len() < 2 { data.len() as int } else { 2 }) + "***"@
            } else if level == 2 {
                data.take(if data.len() < 1 { 0 } else { 1 }) + "***"@
            } else {
                "***"@
            }
        },
        MaskingAlgorithm::Delete => Seq::empty(),
        MaskingAlgorithm::Encrypt => sha256_hex_text(vstd::utf8::encode_utf8(data)),
    }
}

/// The rule can mask the text without cutting a character: only the mask
/// algorithm cuts.
pub open spec fn rule_applies(data: Seq<char>, rule: MaskingRule) -> bool {
    rule.algorithm == MaskingAlgorithm::Mask ==> mask_cuts_ok(
        data,
        match rule.config.mask_prefix { Some(p) => p as nat, None => 0 },
        match rule.config.mask_suffix { Some(s) => s as nat, None => 0 },
    )
}

/// A replacing rule gives its configured replacement text, whatever the
/// value it masks; only a rule with no replacement configured gives `***`.
/// The result does not depend on the value.
pub proof fn law_replace_gives_configured_text(data: Seq<char>, other: Seq<char>, rule: MaskingRule)
    requires
        rule.algorithm == MaskingAlgorithm::Replace,
    ensures
        rule.config.replace_with matches Some(t) ==> mask_result(data, rule) == t@,
        rule.config.replace_with is None ==> mask_result(data, rule) == "***"@,
        mask_result(data, rule) == mask_result(other, rule),
{
}

/// A deleting rule leaves nothing of the value. A generalizing rule keeps
/// the first two characters of the value (all of a shorter one) at level 1
/// (the default), the first one at level 2, none at other levels, and
/// always ends with `***`.
pub proof fn law_delete_and_generalize(data: Seq<char>, rule: MaskingRule)
    ensures
        rule.algorithm == MaskingAlgorithm::Delete ==> mask_result(data, rule).len() == 0,
        rule.algorithm == MaskingAlgorithm::Generalize ==> ({
            let level = match rule.config.generalize_level { Some(l) => l, None => 1 };
            let kept: int = if level == 1 {
                if data.len() < 2 { data.len() as int } else { 2 }
            } else if level == 2 {
                if data.len() < 1 { 0 } else { 1 }
            } else {
                0
            };
            let r = mask_result(data, rule);
            &&& r.len() == kept + 3
            &&& forall|i: int| 0 <= i < kept ==> r[i] == data[i]
            &&& r.subrange(kept, kept + 3) == "***"@
        }),
{
    reveal_strlit("***");
    if rule.algorithm == MaskingAlgorithm::Generalize {
        let level = match rule.config.generalize_level { Some(l) => l, None => 1 };
        let kept: int = if level == 1 {
            if data.len() < 2 { data.len() as int } else { 2 }
        } else if level == 2 {
            if data.len() < 1 { 0 } else { 1 }
        } else {
            0
        };
        let r = mask_result(data, rule);
        assert(r.subrange(kept, kept + 3) =~= "***"@);
    }
}

proof fn lemma_ascii_utf8_len(s: Seq<char>)
    requires
        forall|i: int| 0 <= i < s.len() ==> (#[trigger] s[i] as u32) < 0x80,
    ensures
        utf8_len(s) == s.len(),
    decreases s.len(),
{
    if s.len() > 0 {
        assert forall|i: int| 0 <= i < s.drop_last().len() implies (#[trigger] s.drop_last()[i] as u32) < 0x80 by {
            assert(s.drop_last()[i] == s[i]);
        }
        lemma_ascii_utf8_len(s.drop_last());
        assert((s.last() as u32) < 0x80);
    }
}

proof fn lemma_ascii_chars_in_bytes(s: Seq<char>, b: int)
    requires
        forall|i: int| 0 <= i < s.len() ==> (#[trigger] s[i] as u32) < 0x80,
        0 <= b <= s.len(),
    ensures
        chars_in_bytes(s, b) == b,
{
    assert forall|k: int| 0 <= k <= s.len() implies #[trigger] utf8_len(s.take(k)) == k by {
        assert forall|i: int| 0 <= i < s.take(k).len() implies (#[trigger] s.take(k)[i] as u32) < 0x80 by {
            assert(s.take(k)[i] == s[i]);
        }
        lemma_ascii_utf8_len(s.take(k));
    }
    assert(utf8_len(s.take(b)) == b);
}

/// A masking rule, on a text of ASCII characters, keeps the text's length:
/// when the text is longer than the kept prefix and suffix together, the
/// first `prefix` and last `suffix` characters stay and every one between
/// becomes the mask character; a shorter text is all mask characters. (The
/// mask character is `*` and nothing is kept unless the rule says
/// otherwise.)
pub proof fn law_mask_keeps_the_ends(data: Seq<char>, rule: MaskingRule)
    requires
        rule.algorithm == MaskingAlgorithm::Mask,
        forall|i: int| 0 <= i < data.len() ==> (#[trigger] data[i] as u32) < 0x80,
    ensures
        ({
            let c = match rule.config.mask_char { Some(c) => c, None => '*' };
            let p: int = match rule.config.mask_prefix { Some(p) => p as int, None => 0 };
            let s: int = match rule.config.mask_suffix { Some(s) => s as int, None => 0 };
            let r = mask_result(data, rule);
            &&& r.len() == data.len()
            &&& forall|i: int| 0 <= i < data.len() ==> #[trigger] r[i] == if data.len() > p + s && (i < p || i >= data.len() - s) {
                data[i]
            } else {
                c
            }
        }),
{
    let c = match rule.config.mask_char { Some(c) => c, None => '*' };
    let p: int = match rule.config.mask_prefix { Some(p) => p as int, None => 0 };
    let s: int = match rule.config.mask_suffix { Some(s) => s as int, None => 0 };
    lemma_ascii_utf8_len(data);
    if data.len() > p + s {
        lemma_ascii_chars_in_bytes(data, p);
        lemma_ascii_chars_in_bytes(data, data.len() - s);
    }
}

/// Masks the text by the rule's algorithm.
pub fn apply_mask(data: &str, rule: &MaskingRule) -> (r: String)
    requires
        rule_applies(data@, *rule),
    ensures
        r@ == mask_result(data@, *rule),
{
    match rule.algorithm {
        MaskingAlgorithm::Replace => match &rule.config.replace_with {
            Some(r) => r.clone(),
            None => String::from_str("***"),
        },
        MaskingAlgorithm::Mask => {
            let c = match rule.config.mask_char {
                Some(c) => c,
                None => '*',
            };
            let p = match rule.config.mask_prefix {
                Some(p) => p,
                None => 0,
            };
            let s = match rule.config.mask_suffix {
                Some(s) => s,
                None => 0,
            };
            mask_text(data, c, p, s)
        },
        MaskingAlgorithm::Generalize => {
            let level = match rule.config.generalize_level {
                Some(l) => l,
                None => 1,
            };
            if level == 1 {
                let mut r = first_chars(data, 2);
                r.append("***");
                r
            } else if level == 2 {
                let mut r = first_chars(data, 1);
                r.append("***");
                r
            } else {
                String::from_str("***")
            }
        },
        MaskingAlgorithm::Delete => String::new(),
        MaskingAlgorithm::Encrypt => sha256_hex(data.as_bytes()),
    }
}

} // verus!
