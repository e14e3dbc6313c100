//! Plain-text helpers for rendering notifications: duration formatting,
//! character-safe truncation, and markup stripping.
//!
//! Markup stripping follows a fixed pipeline: line-break tags become
//! newlines, every remaining `<...>` tag (non-empty, up to the first `>`)
//! is removed, and the basic entities are decoded, in a fixed order, each
//! pass replacing non-overlapping occurrences from the left.

use vstd::prelude::*;

verus! {

/// The visual mood of a status indicator.
#[derive(Debug, Clone, Copy)]
pub enum IndicatorState {
    Normal,
    Success,
    Warning,
    Danger,
}

// ---------------------------------------------------------------------
// Characters in and out.
// ---------------------------------------------------------------------

/// The characters of a string, in order.
fn chars_of(s: &str) -> (v: Vec<char>)
    ensures
        v@ == s@,
{
    let n = s.unicode_len();
    let mut v: Vec<char> = Vec::new();
    let mut i: usize = 0;
    while i < n
        invariant
            i <= n,
            n == s@.len(),
            v@ =~= s@.take(i as int),
        decreases n - i,
    {
        v.push(s.get_char(i));
        i = i + 1;
    }
    proof {
        assert(s@.take(n as int) =~= s@);
    }
    v
}

/// Relies on `String: FromIterator<char>` (through `Iterator::collect`):
/// the returned string holds exactly the given characters, in order.
#[verifier::external_body]
fn chars_to_string(v: &Vec<char>) -> (s: String)
    ensures
        s@ == v@,
{
    v.iter().collect()
}

// ---------------------------------------------------------------------
// Decimal formatting.
// ---------------------------------------------------------------------

/// The digit character for one decimal digit.
pub open spec fn spec_dec_digit(d: int) -> char {
    if d == 0 {
        '0'
    } else if d == 1 {
        '1'
    } else if d == 2 {
        '2'
    } else if d == 3 {
        '3'
    } else if d == 4 {
        '4'
    } else if d == 5 {
        '5'
    } else if d == 6 {
        '6'
    } else if d == 7 {
        '7'
    } else if d == 8 {
        '8'
    } else {
        '9'
    }
}

/// The decimal representation of a non-negative number, most significant
/// digit first, without leading zeros (a lone zero for zero).
pub open spec fn spec_dec_rep(n: int) -> Seq<char>
    decreases n,
{
    if n < 10 {
        seq![spec_dec_digit(n)]
    } else {
        spec_dec_rep(n / 10).push(spec_dec_digit(n % 10))
    }
}

/// A duration of whole seconds rendered as hours and minutes: the minutes
/// right-aligned to two places, the hours only when there are any.
pub open spec fn spec_format_duration(secs: int) -> Seq<char> {
    let minutes = secs / 60;
    let h = minutes / 60;
    let m = minutes % 60;
    let m_padded = if m < 10 {
        seq![' '] + spec_dec_rep(m)
    } else {
        spec_dec_rep(m)
    };
    if h > 0 {
        spec_dec_rep(h) + seq!['h', ' '] + m_padded + seq!['m']
    } else {
        m_padded + seq!['m']
    }
}

fn digit_char(d: u64) -> (c: char)
    requires
        d < 10,
    ensures
        c == spec_dec_digit(d as int),
{
    if d == 0 {
        '0'
    } else if d == 1 {
        '1'
    } else if d == 2 {
        '2'
    } else if d == 3 {
        '3'
    } else if d == 4 {
        '4'
    } else if d == 5 {
        '5'
    } else if d == 6 {
        '6'
    } else if d == 7 {
        '7'
    } else if d == 8 {
        '8'
    } else {
        '9'
    }
}

/// Append the decimal representation of `n`.
fn push_dec(n: u64, out: &mut Vec<char>)
    ensures
        final(out)@ == old(out)@ + spec_dec_rep(n as int),
    decreases n,
{
    if n < 10 {
        out.push(digit_char(n));
        proof {
            assert(out@ =~= old(out)@ + spec_dec_rep(n as int));
        }
    } else {
        push_dec(n / 10, out);
        out.push(digit_char(n % 10));
        proof {
            assert(out@ =~= old(out)@ + spec_dec_rep(n as int));
        }
    }
}

/// Render a duration of whole seconds as hours and minutes, such as
/// `3h  5m` or `12m`, with the minutes aligned to two places.
pub fn format_duration(secs: u64) -> (r: String)
    ensures
        r@ == spec_format_duration(secs as int),
{
    let minutes = secs / 60;
    let h = minutes / 60;
    let m = minutes % 60;
    let mut out: Vec<char> = Vec::new();
    if h > 0 {
        push_dec(h, &mut out);
        out.push('h');
        out.push(' ');
    }
    if m < 10 {
        out.push(' ');
    }
    push_dec(m, &mut out);
    out.push('m');
    proof {
        assert(out@ =~= spec_format_duration(secs as int));
    }
    chars_to_string(&out)
}

// ---------------------------------------------------------------------
// Truncation.
// ---------------------------------------------------------------------

/// At most the first `max_chars` characters of the string.
pub open spec fn spec_truncate_chars(s: Seq<char>, max_chars: int) -> Seq<char> {
    if max_chars < s.len() {
        s.take(max_chars)
    } else {
        s
    }
}

/// Truncate a string to at most `max_chars` characters (not bytes), never
/// splitting a multi-byte character.
pub fn truncate_chars(s: &str, max_chars: usize) -> (r: &str)
    ensures
        r@ == spec_truncate_chars(s@, max_chars as int),
{
    let n = s.unicode_len();
    if max_chars >= n {
        s
    } else {
        let r = s.substring_char(0, max_chars);
        proof {
            assert(r@ =~= s@.take(max_chars as int));
        }
        r
    }
}

/// A long value cut to its two ends: the first `max_length / 2` characters,
/// an ellipsis, and the characters from byte-length minus `max_length / 2`
/// onward — measured in bytes for the cut decision and the tail position,
/// in characters for the extraction, exactly as rendered.
pub open spec fn spec_truncate_text(s: Seq<char>, max_length: int) -> Seq<char> {
    let byte_len = vstd::utf8::encode_utf8(s).len() as int;
    if byte_len > max_length {
        let split = max_length / 2;
        let first_end = if split < s.len() {
            split
        } else {
            s.len() as int
        };
        let last_start = if byte_len - split < s.len() {
            byte_len - split
        } else {
            s.len() as int
        };
        s.take(first_end) + seq!['.', '.', '.'] + s.skip(last_start)
    } else {
        s
    }
}

/// Shorten an over-long value by keeping its head and tail around an
/// ellipsis; a value within the length limit is returned as it is.
pub fn truncate_text(value: &str, max_length: u32) -> (r: String)
    ensures
        r@ == spec_truncate_text(value@, max_length as int),
{
    let length = value.as_bytes().len();
    if length > max_length as usize {
        let split = max_length as usize / 2;
        proof {
            vstd::arithmetic::div_mod::lemma_div_nonincreasing(max_length as int, 2);
            vstd::arithmetic::div_mod::lemma_div_pos_is_pos(max_length as int, 2);
        }
        let chars_len = value.unicode_len();
        let first_end = if split < chars_len {
            split
        } else {
            chars_len
        };
        let last_start = if length - split < chars_len {
            length - split
        } else {
            chars_len
        };
        let first_part = value.substring_char(0, first_end);
        let last_part = value.substring_char(last_start, chars_len);
        let r = String::from_str(first_part).concat("...").concat(last_part);
        proof {
            reveal_strlit("...");
            assert("..."@ =~= seq!['.', '.', '.']);
            assert(first_part@ =~= value@.take(first_end as int));
            assert(last_part@ =~= value@.skip(last_start as int));
            assert(r@ =~= spec_truncate_text(value@, max_length as int));
        }
        r
    } else {
        value.to_owned()
    }
}

// ---------------------------------------------------------------------
// Replacement.
// ---------------------------------------------------------------------

/// Every non-overlapping occurrence of `pat` replaced by `rep`, scanning
/// from the left.
pub open spec fn spec_replace(s: Seq<char>, pat: Seq<char>, rep: Seq<char>) -> Seq<char>
    decreases s.len(),
{
    if pat.len() < 1 || s.len() < pat.len() {
        s
    } else if s.take(pat.len() as int) == pat {
        rep + spec_replace(s.skip(pat.len() as int), pat, rep)
    } else {
        seq![s[0]] + spec_replace(s.skip(1), pat, rep)
    }
}

/// Whether `pat` stands in `v` at position `i`.
fn prefix_matches(v: &Vec<char>, i: usize, pat: &Vec<char>) -> (r: bool)
    requires
        i + pat@.len() <= v@.len(),
    ensures
        r <==> (forall|k: int| 0 <= k < pat@.len() ==> v@[i + k] == pat@[k]),
{
    let n = v.len();
    let mut j: usize = 0;
    while j < pat.len()
        invariant
            j <= pat@.len(),
            i + pat@.len() <= v@.len(),
            n == v@.len(),
            forall|k: int| 0 <= k < j ==> v@[i + k] == pat@[k],
        decreases pat@.len() - j,
    {
        if v[i + j] != pat[j] {
            proof {
                assert(v@[i + j] != pat@[j as int]);
            }
            return false;
        }
        j = j + 1;
    }
    true
}

/// Replace every non-overlapping occurrence of `pat` by `rep`, scanning
/// from the left.
fn replace_all(v: &Vec<char>, pat: &Vec<char>, rep: &Vec<char>) -> (r: Vec<char>)
    requires
        pat@.len() >= 1,
    ensures
        r@ == spec_replace(v@, pat@, rep@),
{
    let mut out: Vec<char> = Vec::new();
    let mut i: usize = 0;
    proof {
        assert(v@.skip(0) =~= v@);
        assert(out@ + spec_replace(v@, pat@, rep@) =~= spec_replace(v@, pat@, rep@));
    }
    while i < v.len()
        invariant
            i <= v@.len(),
            pat@.len() >= 1,
            out@ + spec_replace(v@.skip(i as int), pat@, rep@) == spec_replace(v@, pat@, rep@),
        decreases v@.len() - i,
    {
        let ghost rest = v@.skip(i as int);
        if v.len() - i >= pat.len() && prefix_matches(v, i, pat) {
            proof {
                assert forall|k: int| 0 <= k < pat@.len() implies rest.take(pat@.len() as int)[k]
                    == pat@[k] by {
                    assert(v@[i + k] == pat@[k]);
                }
                assert(rest.take(pat@.len() as int) =~= pat@);
                assert(rest.skip(pat@.len() as int) =~= v@.skip(i + pat@.len()));
                assert(spec_replace(rest, pat@, rep@) == rep@ + spec_replace(
                    v@.skip(i + pat@.len()),
                    pat@,
                    rep@,
                ));
            }
            let mut k: usize = 0;
            let ghost out_before = out@;
            while k < rep.len()
                invariant
                    k <= rep@.len(),
                    out@ =~= out_before + rep@.take(k as int),
                decreases rep@.len() - k,
            {
                out.push(rep[k]);
                k = k + 1;
            }
            proof {
                assert(rep@.take(rep@.len() as int) =~= rep@);
                assert(out@ + spec_replace(v@.skip(i + pat@.len()), pat@, rep@)
                    =~= spec_replace(v@, pat@, rep@));
            }
            i = i + pat.len();
        } else {
            proof {
                if i + pat@.len() <= v@.len() {
                    let k0 = choose|k: int|
                        0 <= k < pat@.len() && v@[i + k] != pat@[k];
                    assert(rest.take(pat@.len() as int)[k0] == v@[i + k0]);
                    assert(rest.take(pat@.len() as int) != pat@);
                } else {
                    assert(rest.len() < pat@.len());
                }
                assert(rest[0] == v@[i as int]);
                assert(rest.skip(1) =~= v@.skip(i + 1));
                if rest.len() >= pat@.len() {
                    assert(spec_replace(rest, pat@, rep@) == seq![v@[i as int]] + spec_replace(
                        v@.skip(i + 1),
                        pat@,
                        rep@,
                    ));
                }
            }
            out.push(v[i]);
            proof {
                if rest.len() < pat@.len() {
                    assert(spec_replace(rest, pat@, rep@) =~= rest);
                    assert(spec_replace(v@.skip(i + 1), pat@, rep@) =~= v@.skip(i + 1));
                    assert(out@ + v@.skip(i + 1) =~= spec_replace(v@, pat@, rep@));
                } else {
                    assert(out@ + spec_replace(v@.skip(i + 1), pat@, rep@) =~= spec_replace(
                        v@,
                        pat@,
                        rep@,
                    ));
                }
            }
            i = i + 1;
        }
    }
    proof {
        assert(v@.skip(i as int).len() == 0);
        assert(spec_replace(v@.skip(i as int), pat@, rep@) =~= Seq::<char>::empty());
        assert(out@ + Seq::<char>::empty() =~= out@);
    }
    out
}

// ---------------------------------------------------------------------
// Tag stripping.
// ---------------------------------------------------------------------

/// The index of the first occurrence of the character, or -1 if none.
pub open spec fn find_char(s: Seq<char>, c: char) -> int
    decreases s.len(),
{
    if s.len() == 0 {
        -1
    } else if s[0] == c {
        0
    } else {
        let rest = find_char(s.skip(1), c);
        if rest == -1 {
            -1
        } else {
            rest + 1
        }
    }
}

/// What the character search returns: -1, or the first position that
/// carries the character.
proof fn lemma_find_char_spec(s: Seq<char>, c: char)
    ensures
        find_char(s, c) >= -1,
        find_char(s, c) < s.len(),
        find_char(s, c) >= 0 ==> s[find_char(s, c)] == c,
        find_char(s, c) >= 0 ==> forall|m: int| 0 <= m < find_char(s, c) ==> s[m] != c,
        find_char(s, c) == -1 ==> forall|m: int| 0 <= m < s.len() ==> s[m] != c,
    decreases s.len(),
{
    if s.len() > 0 && s[0] != c {
        lemma_find_char_spec(s.skip(1), c);
        assert(forall|m: int| 0 <= m < s.skip(1).len() ==> s.skip(1)[m] == s[m + 1]);
        if find_char(s, c) == -1 {
            assert forall|m: int| 0 <= m < s.len() implies s[m] != c by {
                if m > 0 {
                    assert(s.skip(1)[m - 1] == s[m]);
                }
            }
        } else {
            assert forall|m: int| 0 <= m < find_char(s, c) implies s[m] != c by {
                if m > 0 {
                    assert(s.skip(1)[m - 1] == s[m]);
                }
            }
        }
    }
}

/// The position of the first occurrence of `target` at or after `from`.
fn find_char_at(v: &Vec<char>, from: usize, target: char) -> (r: Option<usize>)
    requires
        from <= v@.len(),
    ensures
        match r {
            Some(j) => from <= j < v@.len() && find_char(v@.skip(from as int), target) == j
                - from,
            None => find_char(v@.skip(from as int), target) == -1,
        },
{
    let n = v.len();
    let mut j: usize = from;
    proof {
        assert(v@.skip(from as int).skip(0) =~= v@.skip(from as int));
    }
    while j < n
        invariant
            from <= j <= n,
            n == v@.len(),
            find_char(v@.skip(from as int), target) == (if find_char(v@.skip(j as int), target)
                == -1 {
                -1int
            } else {
                find_char(v@.skip(j as int), target) + (j - from)
            }),
        decreases n - j,
    {
        proof {
            assert(v@.skip(j as int)[0] == v@[j as int]);
            assert(v@.skip(j as int).skip(1) =~= v@.skip(j + 1));
        }
        if v[j] == target {
            proof {
                assert(find_char(v@.skip(j as int), target) == 0);
            }
            return Some(j);
        }
        proof {
            lemma_find_char_spec(v@.skip(j + 1), target);
        }
        j = j + 1;
    }
    proof {
        assert(v@.skip(j as int).len() == 0);
    }
    None
}

/// The text with every tag removed: at each `<`, if a `>` follows with at
/// least one character in between, everything through that first `>` goes;
/// a bare `<>` or an unclosed `<` stays as ordinary text.
pub open spec fn spec_strip_tags(s: Seq<char>) -> Seq<char>
    decreases s.len(),
{
    if s.len() == 0 {
        s
    } else if s[0] == '<' {
        let j = find_char(s.skip(1), '>');
        if 1 <= j && j + 2 <= s.len() {
            spec_strip_tags(s.skip(j + 2))
        } else {
            seq![s[0]] + spec_strip_tags(s.skip(1))
        }
    } else {
        seq![s[0]] + spec_strip_tags(s.skip(1))
    }
}

/// Remove every `<...>` tag, as [`spec_strip_tags`] says.
fn strip_tags(v: &Vec<char>) -> (r: Vec<char>)
    ensures
        r@ == spec_strip_tags(v@),
{
    let mut out: Vec<char> = Vec::new();
    let mut i: usize = 0;
    proof {
        assert(v@.skip(0) =~= v@);
        assert(out@ + spec_strip_tags(v@) =~= spec_strip_tags(v@));
    }
    while i < v.len()
        invariant
            i <= v@.len(),
            out@ + spec_strip_tags(v@.skip(i as int)) == spec_strip_tags(v@),
        decreases v@.len() - i,
    {
        let ghost rest = v@.skip(i as int);
        proof {
            assert(rest[0] == v@[i as int]);
            assert(rest.skip(1) =~= v@.skip(i + 1));
        }
        let c = v[i];
        if c == '<' {
            let found = find_char_at(v, i + 1, '>');
            proof {
                assert(v@.skip(i + 1) =~= rest.skip(1));
            }
            match found {
                Some(j_abs) => {
                    if j_abs >= i + 2 {
                        proof {
                            let j = j_abs - (i + 1);
                            assert(find_char(rest.skip(1), '>') == j);
                            assert(1 <= j && j + 2 <= rest.len());
                            assert(spec_strip_tags(rest) == spec_strip_tags(rest.skip(j + 2)));
                            assert(rest.skip(j + 2) =~= v@.skip(j_abs + 1));
                        }
                        i = j_abs + 1;
                    } else {
                        // A bare `<>`: the `<` stays.
                        proof {
                            assert(find_char(rest.skip(1), '>') == 0);
                            assert(spec_strip_tags(rest) == seq![rest[0]] + spec_strip_tags(
                                rest.skip(1),
                            ));
                        }
                        out.push(c);
                        proof {
                            assert(out@ + spec_strip_tags(v@.skip(i + 1)) =~= spec_strip_tags(
                                v@,
                            ));
                        }
                        i = i + 1;
                    }
                },
                None => {
                    proof {
                        assert(find_char(rest.skip(1), '>') == -1);
                        assert(spec_strip_tags(rest) == seq![rest[0]] + spec_strip_tags(
                            rest.skip(1),
                        ));
                    }
                    out.push(c);
                    proof {
                        assert(out@ + spec_strip_tags(v@.skip(i + 1)) =~= spec_strip_tags(v@));
                    }
                    i = i + 1;
                },
            }
        } else {
            proof {
                assert(spec_strip_tags(rest) == seq![rest[0]] + spec_strip_tags(rest.skip(1)));
            }
            out.push(c);
            proof {
                assert(out@ + spec_strip_tags(v@.skip(i + 1)) =~= spec_strip_tags(v@));
            }
            i = i + 1;
        }
    }
    proof {
        assert(v@.skip(i as int).len() == 0);
        assert(spec_strip_tags(v@.skip(i as int)) =~= Seq::<char>::empty());
        assert(out@ + Seq::<char>::empty() =~= out@);
    }
    out
}

// ---------------------------------------------------------------------
// The whole markup pipeline.
// ---------------------------------------------------------------------

/// The markup-stripping pipeline: line-break tags to newlines, tags
/// removed, entities decoded, in this order.
pub open spec fn spec_strip_markup(s: Seq<char>) -> Seq<char> {
    let s1 = spec_replace(s, seq!['<', 'b', 'r', '>'], seq!['\n']);
    let s2 = spec_replace(s1, seq!['<', 'b', 'r', '/', '>'], seq!['\n']);
    let s3 = spec_replace(s2, seq!['<', 'b', 'r', ' ', '/', '>'], seq!['\n']);
    let s4 = spec_strip_tags(s3);
    let s5 = spec_replace(s4, seq!['&', 'a', 'm', 'p', ';'], seq!['&']);
    let s6 = spec_replace(s5, seq!['&', 'l', 't', ';'], seq!['<']);
    let s7 = spec_replace(s6, seq!['&', 'g', 't', ';'], seq!['>']);
    let s8 = spec_replace(s7, seq!['&', 'q', 'u', 'o', 't', ';'], seq!['"']);
    spec_replace(s8, seq!['&', 'a', 'p', 'o', 's', ';'], seq!['\''])
}

/// Strip markup from notification body text: `<br>` variants become
/// newlines, all other tags are removed, and the basic entities are
/// decoded.
pub fn strip_markup_tags(s: &str) -> (r: String)
    ensures
        r@ == spec_strip_markup(s@),
{
    let text = chars_of(s);
    let newline: Vec<char> = vec!['\n'];
    let br: Vec<char> = vec!['<', 'b', 'r', '>'];
    let br_slash: Vec<char> = vec!['<', 'b', 'r', '/', '>'];
    let br_space: Vec<char> = vec!['<', 'b', 'r', ' ', '/', '>'];
    let s1 = replace_all(&text, &br, &newline);
    let s2 = replace_all(&s1, &br_slash, &newline);
    let s3 = replace_all(&s2, &br_space, &newline);
    let s4 = strip_tags(&s3);
    let amp: Vec<char> = vec!['&', 'a', 'm', 'p', ';'];
    let amp_rep: Vec<char> = vec!['&'];
    let lt: Vec<char> = vec!['&', 'l', 't', ';'];
    let lt_rep: Vec<char> = vec!['<'];
    let gt: Vec<char> = vec!['&', 'g', 't', ';'];
    let gt_rep: Vec<char> = vec!['>'];
    let quot: Vec<char> = vec!['&', 'q', 'u', 'o', 't', ';'];
    let quot_rep: Vec<char> = vec!['"'];
    let apos: Vec<char> = vec!['&', 'a', 'p', 'o', 's', ';'];
    let apos_rep: Vec<char> = vec!['\''];
    proof {
        assert(newline@ =~= seq!['\n']);
        assert(br@ =~= seq!['<', 'b', 'r', '>']);
        assert(br_slash@ =~= seq!['<', 'b', 'r', '/', '>']);
        assert(br_space@ =~= seq!['<', 'b', 'r', ' ', '/', '>']);
        assert(amp@ =~= seq!['&', 'a', 'm', 'p', ';']);
        assert(amp_rep@ =~= seq!['&']);
        assert(lt@ =~= seq!['&', 'l', 't', ';']);
        assert(lt_rep@ =~= seq!['<']);
        assert(gt@ =~= seq!['&', 'g', 't', ';']);
        assert(gt_rep@ =~= seq!['>']);
        assert(quot@ =~= seq!['&', 'q', 'u', 'o', 't', ';']);
        assert(quot_rep@ =~= seq!['"']);
        assert(apos@ =~= seq!['&', 'a', 'p', 'o', 's', ';']);
        assert(apos_rep@ =~= seq!['\'']);
    }
    let s5 = replace_all(&s4, &amp, &amp_rep);
    let s6 = replace_all(&s5, &lt, &lt_rep);
    let s7 = replace_all(&s6, &gt, &gt_rep);
    let s8 = replace_all(&s7, &quot, &quot_rep);
    let s9 = replace_all(&s8, &apos, &apos_rep);
    chars_to_string(&s9)
}

} // verus!
