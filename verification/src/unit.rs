//! Keeping the unit of an expression when its value is perturbed.
//!
//! An expression such as `1.5 m` is rewritten with its new value; the unit is
//! kept when the expression is a bare numeric literal with a trailing unit,
//! and a default unit is used otherwise.

use vstd::prelude::*;
use vstd::string::*;

verus! {

/// A bare numeric expression with a trailing unit, e.g. `1.5 m`, `-2 in`, or
/// `0 deg`; capture group 1 is the unit.
pub const UNIT_LITERAL_PATTERN: &'static str = "^[+-]?[0-9]*\\.?[0-9]+\\s*([^\\s0-9.+-]+)$";

/// The text of capture group `group` of the leftmost-first match of the regular
/// expression `pattern` in `haystack`; `None` when the pattern does not
/// compile, nothing matches, or the group takes no part in the match.
pub uninterp spec fn regex_capture_group(pattern: Seq<char>, haystack: Seq<char>, group: nat) -> Option<Seq<char>>;

/// The characters of an optional string.
pub open spec fn text_of(o: Option<String>) -> Option<Seq<char>> {
    match o {
        Some(s) => Some(s@),
        None => None,
    }
}

/// A character with the Unicode property `White_Space`.
pub open spec fn is_white_space(c: char) -> bool {
    let u = c as int;
    ||| 0x9 <= u <= 0xd
    ||| u == 0x20
    ||| u == 0x85
    ||| u == 0xa0
    ||| u == 0x1680
    ||| 0x2000 <= u <= 0x200a
    ||| u == 0x2028
    ||| u == 0x2029
    ||| u == 0x202f
    ||| u == 0x205f
    ||| u == 0x3000
}

/// `s` without its leading and trailing white space.
pub open spec fn trim_white_space(s: Seq<char>) -> Seq<char>
    decreases s.len(),
{
    if s.len() > 0 && is_white_space(s[0]) {
        trim_white_space(s.drop_first())
    } else if s.len() > 0 && is_white_space(s.last()) {
        trim_white_space(s.drop_last())
    } else {
        s
    }
}

/// The unit of `exp` when, once trimmed, it is a bare numeric literal with a
/// trailing unit.
pub open spec fn spec_literal_unit(exp: Seq<char>) -> Option<Seq<char>> {
    regex_capture_group(UNIT_LITERAL_PATTERN@, trim_white_space(exp), 1)
}

/// The unit that `found` names, or `fallback` when it names none.
pub open spec fn unit_or(found: Option<Seq<char>>, fallback: Seq<char>) -> Seq<char> {
    match found {
        Some(u) => u,
        None => fallback,
    }
}

/// `str::trim`: the slice of `s` without its leading and trailing white
/// space, white space being the characters with the Unicode property
/// `White_Space` (`char::is_whitespace`).
#[verifier::external_body]
fn trim(s: &str) -> (r: &str)
    ensures
        r@ == trim_white_space(s@),
{
    s.trim()
}

/// `regex::Regex::new` on `pattern`, then `Regex::captures` on `haystack`,
/// `Captures::get` of `group` and `Match::as_str`. The result is named, not
/// described: it is claimed to depend on the three arguments alone, and to be,
/// when present, a piece of `haystack` (`Match::as_str` slices the haystack).
#[verifier::external_body]
fn capture_group(pattern: &str, haystack: &str, group: usize) -> (r: Option<String>)
    ensures
        text_of(r) == regex_capture_group(pattern@, haystack@, group as nat),
        r matches Some(t) ==> exists|i: int, j: int|
            0 <= i <= j <= haystack@.len() && t@ == haystack@.subrange(i, j),
{
    let re = regex::Regex::new(pattern).ok()?;
    let caps = re.captures(haystack)?;
    caps.get(group).map(|m| m.as_str().to_string())
}

/// The unit of `exp` when, once trimmed, it is a bare numeric expression with
/// a trailing unit (`1.5 m`, `-2 in`, `0 deg`); `None` otherwise.
pub fn literal_unit(exp: &str) -> (unit: Option<String>)
    ensures
        text_of(unit) == spec_literal_unit(exp@),
        text_of(unit) == regex_capture_group(UNIT_LITERAL_PATTERN@, trim_white_space(exp@), 1),
        unit matches Some(u) ==> exists|i: int, j: int|
            0 <= i <= j <= trim_white_space(exp@).len() && u@ == trim_white_space(exp@).subrange(
                i,
                j,
            ),
{
    capture_group(UNIT_LITERAL_PATTERN, trim(exp), 1)
}

/// The unit found in an expression, or `fallback_unit` when none was found.
pub fn unit_or_fallback(found: Option<String>, fallback_unit: &str) -> (unit: String)
    ensures
        unit@ == unit_or(text_of(found), fallback_unit@),
{
    match found {
        Some(u) => u,
        None => String::from_str(fallback_unit),
    }
}

/// The text of an expression holding `value_text` in `unit`: the two separated
/// by one space.
pub fn expr_text(value_text: &str, unit: &str) -> (text: String)
    ensures
        text@ == value_text@ + " "@ + unit@,
{
    let mut text = String::from_str(value_text);
    text.append(" ");
    text.append(unit);
    text
}

/// The text of expression `exp` after its value was changed to the one that
/// `value_text` writes: the new value followed by the unit of `exp`, or by
/// `fallback_unit` when `exp` is not a bare numeric literal with a unit.
pub fn perturbed_exp(value_text: &str, exp: &str, fallback_unit: &str) -> (text: String)
    ensures
        text@ == value_text@ + " "@ + unit_or(spec_literal_unit(exp@), fallback_unit@),
        text@ == value_text@ + " "@ + unit_or(
            regex_capture_group(UNIT_LITERAL_PATTERN@, trim_white_space(exp@), 1),
            fallback_unit@,
        ),
{
    let unit = unit_or_fallback(literal_unit(exp), fallback_unit);
    expr_text(value_text, unit.as_str())
}

/// The unit of an expression is what capture group 1 of
/// [`UNIT_LITERAL_PATTERN`] takes from the trimmed expression.
pub proof fn law_literal_unit_pattern(exp: Seq<char>)
    ensures
        spec_literal_unit(exp) == regex_capture_group(UNIT_LITERAL_PATTERN@, trim_white_space(exp), 1),
{
}

/// All characters of `s` are white space.
pub open spec fn all_white_space(s: Seq<char>) -> bool {
    forall|i: int| 0 <= i < s.len() ==> is_white_space(#[trigger] s[i])
}

proof fn lemma_trim_white(s: Seq<char>)
    requires
        all_white_space(s),
    ensures
        trim_white_space(s) == Seq::<char>::empty(),
    decreases s.len(),
{
    if s.len() > 0 {
        assert(is_white_space(s[0]));
        lemma_trim_white(s.drop_first());
    }
}

proof fn lemma_trim_prefix(pre: Seq<char>, x: Seq<char>)
    requires
        all_white_space(pre),
    ensures
        trim_white_space(pre + x) == trim_white_space(x),
    decreases pre.len(),
{
    if pre.len() > 0 {
        assert(is_white_space((pre + x)[0]));
        assert((pre + x).drop_first() =~= pre.drop_first() + x);
        lemma_trim_prefix(pre.drop_first(), x);
    } else {
        assert(pre + x =~= x);
    }
}

proof fn lemma_trim_suffix(x: Seq<char>, post: Seq<char>)
    requires
        all_white_space(post),
    ensures
        trim_white_space(x + post) == trim_white_space(x),
    decreases x.len() + post.len(),
{
    if post.len() == 0 {
        assert(x + post =~= x);
    } else if x.len() == 0 {
        assert(x + post =~= post);
        lemma_trim_white(post);
        lemma_trim_white(x);
    } else if is_white_space(x[0]) {
        assert((x + post)[0] == x[0]);
        assert((x + post).drop_first() =~= x.drop_first() + post);
        lemma_trim_suffix(x.drop_first(), post);
    } else {
        assert((x + post)[0] == x[0]);
        assert((x + post).last() == post.last());
        assert(is_white_space(post[post.len() - 1]));
        assert((x + post).drop_last() =~= x + post.drop_last());
        lemma_trim_suffix(x, post.drop_last());
    }
}

/// White space around an expression does not change its unit.
pub proof fn law_unit_ignores_surrounding_white_space(pre: Seq<char>, exp: Seq<char>, post: Seq<char>)
    requires
        all_white_space(pre),
        all_white_space(post),
    ensures
        spec_literal_unit(pre + exp + post) == spec_literal_unit(exp),
{
    lemma_trim_prefix(pre, exp + post);
    assert(pre + exp + post =~= pre + (exp + post));
    lemma_trim_suffix(exp, post);
}

} // verus!
