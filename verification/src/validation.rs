//! Validation of rotor and reflector wiring strings: a valid wiring has
//! exactly 26 characters and contains every letter of the alphabet exactly
//! once. Violations are fatal configuration errors, reported with the
//! offending field name and value before any session starts.

use vstd::prelude::*;

use crate::rotor::{is_wiring, position_of, lemma_position_of_first};
use crate::{char_to_index, is_alphabet_char, is_symbol, lemma_symbol_index_roundtrip, symbol_index};

verus! {

/// ASCII whitespace, as `clean_wiring_entry` trims it.
pub open spec fn is_space(c: char) -> bool {
    c == ' ' || c == '\t' || c == '\n' || c == '\r' || c == '\u{0C}'
}

/// `s` up to (not including) its first '#', or all of it when it has none:
/// the part of a wiring entry before any trailing comment.
pub open spec fn comment_prefix(s: Seq<char>) -> Seq<char> {
    if s.contains('#') {
        s.subrange(0, position_of(s, '#'))
    } else {
        s
    }
}

/// `s` with leading whitespace dropped.
pub open spec fn trim_left(s: Seq<char>) -> Seq<char>
    decreases s.len(),
{
    if s.len() > 0 && is_space(s.first()) {
        trim_left(s.drop_first())
    } else {
        s
    }
}

/// `s` with trailing whitespace dropped.
pub open spec fn trim_right(s: Seq<char>) -> Seq<char>
    decreases s.len(),
{
    if s.len() > 0 && is_space(s.last()) {
        trim_right(s.drop_last())
    } else {
        s
    }
}

/// A wiring entry, cleaned: any comment stripped, whitespace trimmed.
pub open spec fn cleaned_entry(s: Seq<char>) -> Seq<char> {
    trim_right(trim_left(comment_prefix(s)))
}

/// Dropping `k` leading spaces is what `trim_left` does.
proof fn lemma_trim_left_at(s: Seq<char>, k: int)
    requires
        0 <= k <= s.len(),
        forall|j: int| 0 <= j < k ==> is_space(#[trigger] s[j]),
        k < s.len() ==> !is_space(s[k]),
    ensures
        trim_left(s) =~= s.subrange(k, s.len() as int),
    decreases k,
{
    if k == 0 {
        assert(s.subrange(0, s.len() as int) =~= s);
    } else {
        assert(is_space(s.first()));
        assert forall|j: int| 0 <= j < k - 1 implies is_space(#[trigger] s.drop_first()[j]) by {
            assert(s[j + 1] == s.drop_first()[j]);
        }
        lemma_trim_left_at(s.drop_first(), k - 1);
        assert(s.drop_first().subrange(k - 1, s.drop_first().len() as int)
            =~= s.subrange(k, s.len() as int));
    }
}

/// Keeping the first `k` characters is what `trim_right` does when the rest
/// is whitespace.
proof fn lemma_trim_right_at(s: Seq<char>, k: int)
    requires
        0 <= k <= s.len(),
        forall|j: int| k <= j < s.len() ==> is_space(#[trigger] s[j]),
        k > 0 ==> !is_space(s[k - 1]),
    ensures
        trim_right(s) =~= s.subrange(0, k),
    decreases s.len() - k,
{
    if k == s.len() {
        assert(s.subrange(0, k) =~= s);
        if s.len() > 0 {
            assert(!is_space(s.last()));
        }
    } else {
        assert(is_space(s.last()));
        lemma_trim_right_at(s.drop_last(), k);
        assert(s.drop_last().subrange(0, k) =~= s.subrange(0, k));
    }
}

/// Strip any '#'-comment from a wiring entry and trim surrounding ASCII
/// whitespace, as the configuration loader does before validating it.
pub fn clean_wiring_entry(entry: &str) -> (r: String)
    ensures
        r@ == cleaned_entry(entry@),
{
    let n: usize = entry.unicode_len();

    // Find the comment, if there is one.
    let mut hash_end: usize = n;
    let mut i: usize = 0;
    while i < hash_end
        invariant
            n == entry@.len(),
            i <= hash_end <= n,
            forall|j: int| 0 <= j < i ==> entry@[j] != '#',
            hash_end < n ==> entry@.contains('#') && position_of(entry@, '#') == hash_end,
        decreases hash_end - i,
    {
        if entry.get_char(i) == '#' {
            proof {
                lemma_position_of_first(entry@, '#', i as int);
            }
            hash_end = i;
        } else {
            i = i + 1;
        }
    }
    proof {
        if hash_end == n {
            assert(!entry@.contains('#'));
            assert(comment_prefix(entry@) =~= entry@.subrange(0, n as int));
        }
        assert(comment_prefix(entry@) =~= entry@.subrange(0, hash_end as int));
    }
    let ghost prefix = entry@.subrange(0, hash_end as int);

    // Trim whitespace off both ends of what is left.
    let mut start: usize = 0;
    while start < hash_end && is_space_char(entry.get_char(start))
        invariant
            n == entry@.len(),
            hash_end <= n,
            start <= hash_end,
            forall|j: int| 0 <= j < start ==> is_space(#[trigger] entry@[j]),
        decreases hash_end - start,
    {
        start = start + 1;
    }
    let mut end: usize = hash_end;
    while end > start && is_space_char(entry.get_char(end - 1))
        invariant
            n == entry@.len(),
            hash_end <= n,
            start <= end <= hash_end,
            forall|j: int| 0 <= j < start ==> is_space(#[trigger] entry@[j]),
            forall|j: int| end <= j < hash_end ==> is_space(#[trigger] entry@[j]),
        decreases end,
    {
        end = end - 1;
    }
    proof {
        assert forall|j: int| 0 <= j < start implies is_space(#[trigger] prefix[j]) by {
            assert(prefix[j] == entry@[j]);
        }
        if start < prefix.len() {
            assert(!is_space(prefix[start as int]));
        }
        lemma_trim_left_at(prefix, start as int);
        let lefttrimmed = prefix.subrange(start as int, hash_end as int);
        assert forall|j: int| end - start <= j < lefttrimmed.len()
            implies is_space(#[trigger] lefttrimmed[j]) by {
            assert(lefttrimmed[j] == entry@[j + start]);
        }
        if end > start {
            assert(lefttrimmed[end - start - 1] == entry@[end - 1]);
        }
        lemma_trim_right_at(lefttrimmed, end - start);
        assert(cleaned_entry(entry@) =~= entry@.subrange(start as int, end as int));
    }
    let cleaned: &str = entry.substring_char(start, end);
    String::from_str(cleaned)
}

/// Whether `c` is ASCII whitespace, as executable code.
fn is_space_char(c: char) -> (r: bool)
    ensures
        r == is_space(c),
{
    c == ' ' || c == '\t' || c == '\n' || c == '\r' || c == '\u{0C}'
}

/// A fatal configuration error.
#[derive(Debug)]
pub enum ValidationError {
    /// A required field is absent from the configuration document.
    MissingField(String),
    /// A wiring string is not a permutation of the alphabet: the field name
    /// and the offending value.
    InvalidPermutation(String, String),
}

impl ValidationError {
    /// The error, described for the operator.
    pub fn describe(&self) -> (r: String)
        ensures
            match self {
                ValidationError::MissingField(field) =>
                    r@ == "missing required field: "@ + field@,
                ValidationError::InvalidPermutation(field, value) =>
                    r@ == "invalid permutation in "@ + field@ + ": '"@ + value@
                        + "' - must contain exactly all letters A-Z once"@,
            },
    {
        let mut r: String = String::new();
        match self {
            ValidationError::MissingField(field) => {
                r.append("missing required field: ");
                r.append(field.as_str());
            },
            ValidationError::InvalidPermutation(field, value) => {
                r.append("invalid permutation in ");
                r.append(field.as_str());
                r.append(": '");
                r.append(value.as_str());
                r.append("' - must contain exactly all letters A-Z once");
            },
        }
        r
    }
}

/// How many entries of `s` are set.
pub open spec fn count_true(s: Seq<bool>) -> int
    decreases s.len(),
{
    if s.len() == 0 {
        0
    } else {
        count_true(s.drop_last()) + if s.last() {
            1int
        } else {
            0int
        }
    }
}

/// No more entries can be set than there are.
proof fn lemma_count_true_bound(s: Seq<bool>)
    ensures
        count_true(s) <= s.len(),
        count_true(s) == s.len() ==> forall|k: int| 0 <= k < s.len() ==> s[k],
    decreases s.len(),
{
    if s.len() > 0 {
        lemma_count_true_bound(s.drop_last());
        if count_true(s) == s.len() {
            assert forall|k: int| 0 <= k < s.len() implies s[k] by {
                if k < s.len() - 1 {
                    assert(s.drop_last()[k]);
                }
            }
        }
    }
}

/// Setting an unset entry raises the count by one.
proof fn lemma_count_true_update(s: Seq<bool>, i: int)
    requires
        0 <= i < s.len(),
        !s[i],
    ensures
        count_true(s.update(i, true)) == count_true(s) + 1,
    decreases s.len(),
{
    if i == s.len() - 1 {
        assert(s.update(i, true).drop_last() =~= s.drop_last());
    } else {
        assert(s.update(i, true).drop_last() =~= s.drop_last().update(i, true));
        lemma_count_true_update(s.drop_last(), i);
    }
}

/// Check one wiring string: exactly 26 characters, every letter of the
/// alphabet exactly once. On violation the offending field name and value are
/// reported.
pub fn validate_permutation(perm: &str, field_name: &str) -> (r: Result<(), ValidationError>)
    ensures
        r is Ok <==> is_wiring(perm@),
        r matches Err(e) ==> e matches ValidationError::InvalidPermutation(f, v)
            && f@ == field_name@ && v@ == perm@,
{
    let n: usize = perm.unicode_len();
    if n != 26 {
        return Err(ValidationError::InvalidPermutation(
            String::from_str(field_name),
            String::from_str(perm),
        ));
    }

    // Mark each letter as it is met; a miss or a repeat is a violation.
    let mut seen: Vec<bool> = Vec::new();
    let mut k: usize = 0;
    while k < 26
        invariant
            seen@.len() == k,
            k <= 26,
            forall|j: int| 0 <= j < k ==> !(#[trigger] seen@[j]),
            count_true(seen@) == 0,
        decreases 26 - k,
    {
        let ghost prev = seen@;
        seen.push(false);
        assert(seen@.drop_last() =~= prev);
        k = k + 1;
    }

    let mut i: usize = 0;
    while i < 26
        invariant
            perm@.len() == 26,
            i <= 26,
            seen@.len() == 26,
            count_true(seen@) == i,
            forall|k2: int| 0 <= k2 < 26
                ==> (#[trigger] seen@[k2] <==> exists|j: int| 0 <= j < i
                    && is_symbol(#[trigger] perm@[j]) && symbol_index(perm@[j]) == k2),
            forall|j: int| 0 <= j < i ==> is_symbol(#[trigger] perm@[j]),
            forall|j1: int, j2: int| 0 <= j1 < j2 < i ==> perm@[j1] != perm@[j2],
        decreases 26 - i,
    {
        let c: char = perm.get_char(i);
        if !is_alphabet_char(c) {
            return Err(ValidationError::InvalidPermutation(
                String::from_str(field_name),
                String::from_str(perm),
            ));
        }
        let idx: usize = char_to_index(c);
        if seen[idx] {
            // A letter met twice: the witness index shows the duplicate.
            proof {
                let j = choose|j: int| 0 <= j < i
                    && is_symbol(#[trigger] perm@[j]) && symbol_index(perm@[j]) == idx;
                lemma_symbol_index_roundtrip(c, 0);
                lemma_symbol_index_roundtrip(perm@[j], 0);
                assert(perm@[j] == c);
            }
            return Err(ValidationError::InvalidPermutation(
                String::from_str(field_name),
                String::from_str(perm),
            ));
        }
        let ghost pre_seen = seen@;
        proof {
            lemma_count_true_update(seen@, idx as int);
        }
        seen.set(idx, true);
        proof {
            // No letter is met twice up to and including this position.
            assert forall|j1: int, j2: int| 0 <= j1 < j2 < i + 1
                implies perm@[j1] != perm@[j2] by {
                if j2 == i as int && perm@[j1] == perm@[j2] {
                    assert(is_symbol(perm@[j1]) && symbol_index(perm@[j1]) == idx as int);
                    assert(pre_seen[idx as int]);
                }
            }
            // A mark is set exactly for the letters met so far.
            assert forall|k2: int| 0 <= k2 < 26 implies
                (#[trigger] seen@[k2] <==> exists|j: int| 0 <= j < i + 1
                    && is_symbol(#[trigger] perm@[j]) && symbol_index(perm@[j]) == k2) by {
                if k2 == idx as int {
                    assert(is_symbol(perm@[i as int]) && symbol_index(perm@[i as int]) == k2);
                } else {
                    assert(seen@[k2] == pre_seen[k2]);
                    if exists|j: int| 0 <= j < i + 1
                        && is_symbol(#[trigger] perm@[j]) && symbol_index(perm@[j]) == k2 {
                        let j = choose|j: int| 0 <= j < i + 1
                            && is_symbol(#[trigger] perm@[j]) && symbol_index(perm@[j]) == k2;
                        assert(j < i);
                    }
                }
            }
        }
        i = i + 1;
    }

    // All 26 marks are set, so every letter occurs.
    proof {
        lemma_count_true_bound(seen@);
        assert forall|c: char| is_symbol(c) implies #[trigger] perm@.contains(c) by {
            assert(seen@[symbol_index(c)]);
            let j = choose|j: int| 0 <= j < 26
                && is_symbol(#[trigger] perm@[j]) && symbol_index(perm@[j]) == symbol_index(c);
            lemma_symbol_index_roundtrip(c, 0);
            lemma_symbol_index_roundtrip(perm@[j], 0);
            assert(perm@[j] == c);
        }
    }
    Ok(())
}

} // verus!
