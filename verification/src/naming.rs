//! Names: those of the profile as identifiers, the words between the
//! underscores of a name in one word, each with a capital; and the version
//! of a kit in the name of its archive.
use vstd::prelude::*;
use vstd::string::StrSliceExecFns;
use vstd::string::StringExecFns;

verus! {

/// The upper case of a character, which can be more than one character.
pub uninterp spec fn uppercase_of(c: char) -> Seq<char>;

/// The upper case of a character, by `char::to_uppercase`.
///
/// Trusted: the result is named `uppercase_of` of the character.
#[verifier::external_body]
pub(crate) fn to_uppercase(c: char) -> (r: String)
    ensures
        r@ == uppercase_of(c),
{
    c.to_uppercase().collect()
}

/// The name from the `i`-th character on, in one word: an underscore is
/// left out, and the character after the start of the name or after an
/// underscore is put in upper case. A digit at the very start of the name
/// gets an `N` before it.
pub open spec fn capitalized_from(s: Seq<char>, i: int, at_start: bool, first_word: bool) -> Seq<
    char,
>
    decreases s.len() - i,
{
    if i < 0 || i >= s.len() {
        Seq::empty()
    } else if s[i] == '_' {
        capitalized_from(s, i + 1, true, false)
    } else if at_start {
        (if first_word && '0' <= s[i] <= '9' {
            seq!['N']
        } else {
            Seq::empty()
        }) + uppercase_of(s[i]) + capitalized_from(s, i + 1, false, first_word)
    } else {
        seq![s[i]] + capitalized_from(s, i + 1, false, first_word)
    }
}

/// Whether `part` stands in `s` at the position `i`.
pub open spec fn found_at(s: Seq<char>, part: Seq<char>, i: int) -> bool {
    0 <= i && i + part.len() <= s.len() && s.subrange(i, i + part.len()) == part
}

/// The text from the `i`-th character on with every `from` replaced by
/// `to`, from left to right.
pub open spec fn replaced_from(s: Seq<char>, from: Seq<char>, to: Seq<char>, i: int) -> Seq<char>
    decreases s.len() - i,
{
    if i < 0 || i >= s.len() {
        Seq::empty()
    } else if from.len() > 0 && found_at(s, from, i) {
        to + replaced_from(s, from, to, i + from.len())
    } else {
        seq![s[i]] + replaced_from(s, from, to, i + 1)
    }
}

/// The name in Pascal case: its words in one, each with a capital, and
/// with `SInt` and `UInt` for `Sint` and `Uint` where it starts with one of
/// them.
pub open spec fn pascal_case_of(s: Seq<char>) -> Seq<char> {
    let word = capitalized_from(s, 0, true, true);
    if found_at(word, "Sint"@, 0) {
        replaced_from(word, "Sint"@, "SInt"@, 0)
    } else if found_at(word, "Uint"@, 0) {
        replaced_from(word, "Uint"@, "UInt"@, 0)
    } else {
        word
    }
}

/// Whether `part` stands in `s` at the position `i`.
pub fn stands_at(s: &str, part: &str, i: usize) -> (r: bool)
    requires
        i <= s@.len(),
    ensures
        r == found_at(s@, part@, i as int),
{
    let n = s.unicode_len();
    let m = part.unicode_len();
    if m > n - i {
        return false;
    }
    let mut k: usize = 0;
    while k < m
        invariant
            k <= m,
            m == part@.len(),
            n == s@.len(),
            i + m <= n,
            forall|j: int| 0 <= j < k ==> s@[i + j] == part@[j],
        decreases m - k,
    {
        if s.get_char(i + k) != part.get_char(k) {
            assert(s@.subrange(i as int, i + m)[k as int] != part@[k as int]);
            return false;
        }
        k += 1;
    }
    assert(s@.subrange(i as int, i + m) =~= part@);
    true
}

/// The text with every `from` replaced by `to`, from left to right.
pub fn replace_all(s: &str, from: &str, to: &str) -> (r: String)
    ensures
        r@ == replaced_from(s@, from@, to@, 0),
{
    let n = s.unicode_len();
    let m = from.unicode_len();
    let mut out = String::new();
    let mut i: usize = 0;
    while i < n
        invariant
            i <= n,
            n == s@.len(),
            m == from@.len(),
            replaced_from(s@, from@, to@, 0) == out@ + replaced_from(s@, from@, to@, i as int),
        decreases n - i,
    {
        let ghost before = out@;
        if m > 0 && stands_at(s, from, i) {
            out.append(to);
            assert(out@ + replaced_from(s@, from@, to@, i + m) =~= before + (to@ + replaced_from(
                s@,
                from@,
                to@,
                i + m,
            )));
            i += m;
        } else {
            out.append(s.substring_char(i, i + 1));
            assert(s@.subrange(i as int, i + 1) =~= seq![s@[i as int]]);
            assert(out@ + replaced_from(s@, from@, to@, i + 1) =~= before + (seq![s@[i as int]]
                + replaced_from(s@, from@, to@, i + 1)));
            i += 1;
        }
    }
    assert(out@ + Seq::<char>::empty() =~= out@);
    out
}

/// Adds the first character of a word to a name: its upper case, after an
/// `N` where it is a digit at the very start.
pub fn push_capital(out: &mut String, leading_digit: bool, upper: &str)
    ensures
        final(out)@ == old(out)@ + (if leading_digit {
            seq!['N']
        } else {
            Seq::empty()
        }) + upper@,
{
    if leading_digit {
        out.append("N");
        proof {
            reveal_strlit("N");
            assert("N"@ =~= seq!['N']);
        }
    }
    out.append(upper);
    assert(out@ =~= old(out)@ + (if leading_digit {
        seq!['N']
    } else {
        Seq::empty()
    }) + upper@);
}

/// The name in one word, each of its words with a capital.
pub fn capitalize(s: &str) -> (r: String)
    ensures
        r@ == capitalized_from(s@, 0, true, true),
{
    let n = s.unicode_len();
    let mut out = String::new();
    let mut at_start = true;
    let mut first_word = true;
    let mut i: usize = 0;
    while i < n
        invariant
            i <= n,
            n == s@.len(),
            capitalized_from(s@, 0, true, true) == out@ + capitalized_from(
                s@,
                i as int,
                at_start,
                first_word,
            ),
        decreases n - i,
    {
        let ghost before = out@;
        let ghost rest_before = capitalized_from(s@, i as int, at_start, first_word);
        let c = s.get_char(i);
        if c == '_' {
            at_start = true;
            first_word = false;
            assert(before + rest_before =~= out@ + capitalized_from(s@, i + 1, true, false));
        } else if at_start {
            let u = c as u32;
            let upper = to_uppercase(c);
            push_capital(&mut out, first_word && 0x30 <= u && u <= 0x39, upper.as_str());
            at_start = false;
            assert(before + rest_before =~= out@ + capitalized_from(s@, i + 1, false, first_word));
        } else {
            out.append(s.substring_char(i, i + 1));
            assert(s@.subrange(i as int, i + 1) =~= seq![c]);
            assert(before + rest_before =~= out@ + capitalized_from(s@, i + 1, false, first_word));
        }
        i += 1;
    }
    assert(out@ + Seq::<char>::empty() =~= out@);
    out
}

/// The name in Pascal case, as [`pascal_case_of`] defines it.
pub fn to_pascal_case(s: &str) -> (r: String)
    ensures
        r@ == pascal_case_of(s@),
{
    let word = capitalize(s);
    if stands_at(word.as_str(), "Sint", 0) {
        replace_all(word.as_str(), "Sint", "SInt")
    } else if stands_at(word.as_str(), "Uint", 0) {
        replace_all(word.as_str(), "Uint", "UInt")
    } else {
        word
    }
}

/// How often a character occurs from the `i`-th character on.
pub open spec fn count_of(s: Seq<char>, c: char, i: int) -> nat
    decreases s.len() - i,
{
    if i < 0 || i >= s.len() {
        0
    } else if s[i] == c {
        1 + count_of(s, c, i + 1)
    } else {
        count_of(s, c, i + 1)
    }
}

/// The version that the name of an archive holds: the name without
/// `FitSDKRelease_`, where that has three parts between dots.
pub open spec fn sdk_version_of(name: Seq<char>) -> Option<Seq<char>> {
    let version = replaced_from(name, "FitSDKRelease_"@, Seq::empty(), 0);
    if count_of(version, '.', 0) == 2 {
        Some(version)
    } else {
        None
    }
}

/// The version that the name of an archive holds, as `21.141.00` in
/// `FitSDKRelease_21.141.00`.
pub fn extract_sdk_version(name: &str) -> (r: Option<String>)
    ensures
        match r {
            Some(v) => sdk_version_of(name@) == Some(v@),
            None => sdk_version_of(name@) is None,
        },
{
    proof {
        reveal_strlit("");
        assert(""@ =~= Seq::<char>::empty());
    }
    let version = replace_all(name, "FitSDKRelease_", "");
    let n = version.as_str().unicode_len();
    let mut dots: usize = 0;
    let mut i: usize = 0;
    while i < n
        invariant
            i <= n,
            n == version@.len(),
            dots <= i,
            count_of(version@, '.', 0) == dots + count_of(version@, '.', i as int),
        decreases n - i,
    {
        if version.as_str().get_char(i) == '.' {
            dots += 1;
        }
        i += 1;
    }
    if dots == 2 {
        Some(version)
    } else {
        None
    }
}

} // verus!
