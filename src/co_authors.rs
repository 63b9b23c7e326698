//! Parsing of `Co-authored-by:` trailers, one line of a commit message at a time.
use vstd::prelude::*;
use vstd::string::*;

verus! {

/// The outcome of parsing one trailer line when it does not yield a co-author.
#[derive(Clone, Copy, Debug, PartialEq, Eq, Structural)]
pub enum TrailerError {
    /// The line does not start with a `co-authored-by:` key.
    MissingTrailerKey,
    /// The key is there, but nothing but whitespace stands before the mail field.
    MissingName,
    /// A mail address was asked for, and the line has no well-formed one.
    MissingMail,
}

/// One co-author, as named by a trailer line. Both fields borrow from that line.
#[derive(Clone, Copy, Debug, PartialEq, Eq)]
pub struct CoAuthor<'a> {
    pub name: &'a str,
    pub mail: Option<&'a str>,
}

/// A space or a tab: the whitespace allowed around the trailer key.
pub open spec fn is_blank(c: char) -> bool {
    c == ' ' || c == '\t'
}

/// ASCII whitespace as `u8::is_ascii_whitespace` and `char::is_ascii_whitespace` see it.
pub open spec fn is_ascii_ws(c: char) -> bool {
    c == ' ' || c == '\t' || c == '\n' || c == '\x0C' || c == '\r'
}

/// `s` without its trailing ASCII whitespace.
pub open spec fn trim_end(s: Seq<char>) -> Seq<char>
    decreases s.len(),
{
    if s.len() > 0 && is_ascii_ws(s.last()) {
        trim_end(s.drop_last())
    } else {
        s
    }
}

/// The trailer key, in lower case.
pub open spec fn trailer_key() -> Seq<char> {
    seq!['c', 'o', '-', 'a', 'u', 't', 'h', 'o', 'r', 'e', 'd', '-', 'b', 'y', ':']
}

/// `c` equals the key character `k` up to ASCII case (`k` is never an upper-case letter).
pub open spec fn matches_key_char(c: char, k: char) -> bool {
    c == k || (97 <= k as u32 <= 122 && c as u32 == k as u32 - 32)
}

/// A whole trailer key starts at position `i` of `s`.
pub open spec fn key_at(s: Seq<char>, i: int) -> bool {
    &&& 0 <= i
    &&& i + 15 <= s.len()
    &&& forall|j: int| 0 <= j < 15 ==> matches_key_char(#[trigger] s[i + j], trailer_key()[j])
}

/// The first position at or after `i` that does not hold a space or a tab.
pub open spec fn skip_blanks(s: Seq<char>, i: int) -> int
    decreases s.len() - i,
{
    if 0 <= i < s.len() && is_blank(s[i]) {
        skip_blanks(s, i + 1)
    } else {
        i
    }
}

/// Where a run of keys, each followed by optional blanks, ends when the run starts at `p`.
pub open spec fn keys_end(s: Seq<char>, p: int) -> int
    decreases s.len() - p,
{
    if key_at(s, p) {
        proof {
            lemma_skip_blanks_bounds(s, p + 15);
        }
        keys_end(s, skip_blanks(s, p + 15))
    } else {
        p
    }
}

/// The first `<` at or after `p`, or the end of `s`.
pub open spec fn first_angle(s: Seq<char>, p: int) -> int
    decreases s.len() - p,
{
    if 0 <= p < s.len() && s[p] != '<' {
        first_angle(s, p + 1)
    } else {
        p
    }
}

/// The first `>`, space or tab at or after `p`, or the end of `s`.
pub open spec fn mail_end(s: Seq<char>, p: int) -> int
    decreases s.len() - p,
{
    if 0 <= p < s.len() && !(s[p] == '>' || is_blank(s[p])) {
        mail_end(s, p + 1)
    } else {
        p
    }
}

/// Where the text after the leading key(s) of a trailer line starts, if the line has a key.
pub open spec fn trailer_start(s: Seq<char>) -> Option<int> {
    let j = skip_blanks(s, 0);
    if key_at(s, j) {
        Some(keys_end(s, j))
    } else {
        None
    }
}

/// The mail field that starts at position `q`: the text between `<` and the next `>`,
/// which must be non-empty and hold no space or tab.
pub open spec fn mail_field(s: Seq<char>, q: int) -> Option<Seq<char>> {
    if 0 <= q < s.len() && s[q] == '<' {
        let e = mail_end(s, q + 1);
        if q + 1 < e < s.len() && s[e] == '>' {
            Some(s.subrange(q + 1, e))
        } else {
            None
        }
    } else {
        None
    }
}

/// The name field of a trailer whose text starts at `k`: everything up to the first `<`,
/// without trailing whitespace.
pub open spec fn name_field(s: Seq<char>, k: int) -> Seq<char> {
    trim_end(s.subrange(k, first_angle(s, k)))
}

/// What a trailer line says: its co-author's name and mail, or why it names nobody.
pub open spec fn trailer_outcome(s: Seq<char>) -> Result<(Seq<char>, Option<Seq<char>>), TrailerError> {
    match trailer_start(s) {
        None => Err(TrailerError::MissingTrailerKey),
        Some(k) => {
            let name = name_field(s, k);
            if name.len() == 0 {
                Err(TrailerError::MissingName)
            } else {
                Ok((name, mail_field(s, first_angle(s, k))))
            }
        },
    }
}

/// The view of an optional string slice.
pub open spec fn opt_view(o: Option<&str>) -> Option<Seq<char>> {
    match o {
        Some(s) => Some(s@),
        None => None,
    }
}

/// `skip_blanks` moves forward and stays within the line.
pub proof fn lemma_skip_blanks_bounds(s: Seq<char>, i: int)
    requires
        0 <= i,
    ensures
        i <= skip_blanks(s, i),
        i <= s.len() ==> skip_blanks(s, i) <= s.len(),
    decreases s.len() - i,
{
    if 0 <= i < s.len() && is_blank(s[i]) {
        lemma_skip_blanks_bounds(s, i + 1);
    }
}

/// `k` spells the trailer key, in any ASCII case.
pub open spec fn is_key_spelling(k: Seq<char>) -> bool {
    k.len() == 15 && forall|j: int| 0 <= j < 15 ==> matches_key_char(#[trigger] k[j], trailer_key()[j])
}

proof fn lemma_shift_skip_blanks(k: Seq<char>, s: Seq<char>, i: int)
    requires
        0 <= i <= s.len(),
    ensures
        skip_blanks(k + s, k.len() + i) == k.len() + skip_blanks(s, i),
    decreases s.len() - i,
{
    let l = k + s;
    assert(forall|t: int| 0 <= t < s.len() ==> l[k.len() + t] == s[t]);
    if i < s.len() && is_blank(s[i]) {
        lemma_shift_skip_blanks(k, s, i + 1);
    }
}

proof fn lemma_shift_key_at(k: Seq<char>, s: Seq<char>, i: int)
    requires
        0 <= i,
    ensures
        key_at(k + s, k.len() + i) == key_at(s, i),
{
    let l = k + s;
    if key_at(s, i) {
        assert forall|j: int| 0 <= j < 15 implies matches_key_char(
            #[trigger] l[k.len() + i + j],
            trailer_key()[j],
        ) by {
            assert(l[k.len() + i + j] == s[i + j]);
        }
    }
    if key_at(l, k.len() + i) {
        assert forall|j: int| 0 <= j < 15 implies matches_key_char(
            #[trigger] s[i + j],
            trailer_key()[j],
        ) by {
            assert(l[k.len() + i + j] == s[i + j]);
        }
    }
}

proof fn lemma_shift_keys_end(k: Seq<char>, s: Seq<char>, p: int)
    requires
        0 <= p <= s.len(),
    ensures
        keys_end(k + s, k.len() + p) == k.len() + keys_end(s, p),
    decreases s.len() - p,
{
    lemma_shift_key_at(k, s, p);
    if key_at(s, p) {
        lemma_shift_skip_blanks(k, s, p + 15);
        lemma_skip_blanks_bounds(s, p + 15);
        lemma_shift_keys_end(k, s, skip_blanks(s, p + 15));
    }
}

proof fn lemma_shift_first_angle(k: Seq<char>, s: Seq<char>, p: int)
    requires
        0 <= p <= s.len(),
    ensures
        first_angle(k + s, k.len() + p) == k.len() + first_angle(s, p),
        p <= first_angle(s, p) <= s.len(),
    decreases s.len() - p,
{
    let l = k + s;
    if p < s.len() {
        assert(l[k.len() + p] == s[p]);
        if s[p] != '<' {
            lemma_shift_first_angle(k, s, p + 1);
        }
    }
}

proof fn lemma_shift_mail_end(k: Seq<char>, s: Seq<char>, p: int)
    requires
        0 <= p <= s.len(),
    ensures
        mail_end(k + s, k.len() + p) == k.len() + mail_end(s, p),
        p <= mail_end(s, p) <= s.len(),
    decreases s.len() - p,
{
    let l = k + s;
    if p < s.len() {
        assert(l[k.len() + p] == s[p]);
        if !(s[p] == '>' || is_blank(s[p])) {
            lemma_shift_mail_end(k, s, p + 1);
        }
    }
}

proof fn lemma_shift_mail_field(k: Seq<char>, s: Seq<char>, q: int)
    requires
        0 <= q <= s.len(),
    ensures
        mail_field(k + s, k.len() + q) == mail_field(s, q),
{
    let l = k + s;
    if q < s.len() {
        assert(l[k.len() + q] == s[q]);
        if s[q] == '<' {
            lemma_shift_mail_end(k, s, q + 1);
            let e = mail_end(s, q + 1);
            if e < s.len() {
                assert(l[k.len() + e] == s[e]);
            }
            assert(l.subrange(k.len() + q + 1, k.len() + e) =~= s.subrange(q + 1, e));
        }
    }
}

/// Stacked keys parse like a single one: a trailer line that gets one more key, in any
/// ASCII case, in front yields the same name and mail, or the same failure.
pub proof fn lemma_stacked_key(k: Seq<char>, s: Seq<char>)
    requires
        is_key_spelling(k),
        trailer_start(s) is Some,
    ensures
        trailer_outcome(k + s) == trailer_outcome(s),
{
    let l = k + s;
    assert(l[0] == k[0]);
    assert(matches_key_char(k[0], trailer_key()[0]));
    assert(skip_blanks(l, 0) == 0);
    assert(key_at(l, 0)) by {
        assert forall|j: int| 0 <= j < 15 implies matches_key_char(#[trigger] l[0 + j], trailer_key()[j]) by {
            assert(l[j] == k[j]);
        }
    }
    lemma_shift_skip_blanks(k, s, 0);
    let j = skip_blanks(s, 0);
    lemma_skip_blanks_bounds(s, 0);
    lemma_shift_keys_end(k, s, j);
    let kk = keys_end(s, j);
    assert(trailer_start(l) == Some(15 + kk));
    lemma_keys_end_bounds(s, j);
    lemma_shift_first_angle(k, s, kk);
    let q = first_angle(s, kk);
    assert(l.subrange(15 + kk, 15 + q) =~= s.subrange(kk, q));
    lemma_shift_mail_field(k, s, q);
}

/// `keys_end` moves forward and stays within the line.
proof fn lemma_keys_end_bounds(s: Seq<char>, p: int)
    requires
        0 <= p <= s.len(),
    ensures
        p <= keys_end(s, p) <= s.len(),
    decreases s.len() - p,
{
    if key_at(s, p) {
        lemma_skip_blanks_bounds(s, p + 15);
        lemma_keys_end_bounds(s, skip_blanks(s, p + 15));
    }
}

/// The characters of `s`, one per element.
pub(crate) fn chars_of(s: &str) -> (r: Vec<char>)
    ensures
        r@ == s@,
{
    let mut r: Vec<char> = Vec::new();
    for c in it: s.chars()
        invariant
            r@ == it.seq().take(it.index() as int),
    {
        r.push(c);
    }
    r
}

fn skip_blanks_from(cs: &Vec<char>, i: usize) -> (r: usize)
    requires
        i <= cs.len(),
    ensures
        r as int == skip_blanks(cs@, i as int),
        i <= r <= cs.len(),
{
    let mut j = i;
    while j < cs.len() && (cs[j] == ' ' || cs[j] == '\t')
        invariant
            i <= j <= cs.len(),
            skip_blanks(cs@, j as int) == skip_blanks(cs@, i as int),
        decreases cs.len() - j,
    {
        j = j + 1;
    }
    j
}

fn key_char_matches(c: char, k: char) -> (r: bool)
    ensures
        r == matches_key_char(c, k),
{
    let cu = c as u32;
    let ku = k as u32;
    cu == ku || (97 <= ku && ku <= 122 && cu == ku - 32)
}

fn key_at_pos(cs: &Vec<char>, i: usize) -> (r: bool)
    requires
        i <= cs.len(),
    ensures
        r == key_at(cs@, i as int),
{
    let key: Vec<char> = vec!['c', 'o', '-', 'a', 'u', 't', 'h', 'o', 'r', 'e', 'd', '-', 'b', 'y', ':'];
    assert(key@ =~= trailer_key());
    if cs.len() - i < 15 {
        return false;
    }
    let mut j: usize = 0;
    while j < 15
        invariant
            j <= 15,
            i + 15 <= cs.len(),
            key@ == trailer_key(),
            forall|m: int| 0 <= m < j ==> matches_key_char(#[trigger] cs@[i + m], trailer_key()[m]),
        decreases 15 - j,
    {
        if !key_char_matches(cs[i + j], key[j]) {
            return false;
        }
        j = j + 1;
    }
    true
}

fn keys_end_from(cs: &Vec<char>, p: usize) -> (r: usize)
    requires
        p <= cs.len(),
    ensures
        r as int == keys_end(cs@, p as int),
        p <= r <= cs.len(),
{
    let mut q = p;
    while key_at_pos(cs, q)
        invariant
            p <= q <= cs.len(),
            keys_end(cs@, q as int) == keys_end(cs@, p as int),
        decreases cs.len() - q,
    {
        q = skip_blanks_from(cs, q + 15);
    }
    q
}

fn first_angle_from(cs: &Vec<char>, p: usize) -> (r: usize)
    requires
        p <= cs.len(),
    ensures
        r as int == first_angle(cs@, p as int),
        p <= r <= cs.len(),
{
    let mut q = p;
    while q < cs.len() && cs[q] != '<'
        invariant
            p <= q <= cs.len(),
            first_angle(cs@, q as int) == first_angle(cs@, p as int),
        decreases cs.len() - q,
    {
        q = q + 1;
    }
    q
}

fn mail_end_from(cs: &Vec<char>, p: usize) -> (r: usize)
    requires
        p <= cs.len(),
    ensures
        r as int == mail_end(cs@, p as int),
        p <= r <= cs.len(),
{
    let mut q = p;
    while q < cs.len() && !(cs[q] == '>' || cs[q] == ' ' || cs[q] == '\t')
        invariant
            p <= q <= cs.len(),
            mail_end(cs@, q as int) == mail_end(cs@, p as int),
        decreases cs.len() - q,
    {
        q = q + 1;
    }
    q
}

/// The end of `cs[from..to]` once its trailing ASCII whitespace is cut off.
fn trimmed_end(cs: &Vec<char>, from: usize, to: usize) -> (r: usize)
    requires
        from <= to <= cs.len(),
    ensures
        from <= r <= to,
        cs@.subrange(from as int, r as int) == trim_end(cs@.subrange(from as int, to as int)),
{
    let mut e = to;
    while e > from && (cs[e - 1] == ' ' || cs[e - 1] == '\t' || cs[e - 1] == '\n' || cs[e - 1] == '\x0C'
        || cs[e - 1] == '\r')
        invariant
            from <= e <= to,
            to <= cs.len(),
            trim_end(cs@.subrange(from as int, e as int)) == trim_end(
                cs@.subrange(from as int, to as int),
            ),
        decreases e,
    {
        assert(cs@.subrange(from as int, e as int).drop_last() =~= cs@.subrange(
            from as int,
            e - 1,
        ));
        e = e - 1;
    }
    e
}

/// `input` without its trailing ASCII whitespace.
pub fn trim_ascii_end(input: &str) -> (r: &str)
    ensures
        r@ == trim_end(input@),
{
    let cs = chars_of(input);
    let e = trimmed_end(&cs, 0, cs.len());
    assert(cs@.subrange(0, cs@.len() as int) =~= cs@);
    input.substring_char(0, e)
}

/// The text after the leading `co-authored-by:` key(s) of `input` and the blanks around them,
/// or `None` when `input` does not start with a key.
pub fn co_authored_by(input: &str) -> (r: Option<&str>)
    ensures
        match trailer_start(input@) {
            None => r is None,
            Some(k) => r is Some && r->0@ == input@.subrange(k, input@.len() as int),
        },
{
    let cs = chars_of(input);
    let j = skip_blanks_from(&cs, 0);
    if !key_at_pos(&cs, j) {
        return None;
    }
    let k = keys_end_from(&cs, j);
    Some(input.substring_char(k, cs.len()))
}

/// The name field of a trailer line, trimmed at its end; `None` when the line has no key.
/// The name may be empty.
pub fn co_author_name(input: &str) -> (r: Option<&str>)
    ensures
        match trailer_start(input@) {
            None => r is None,
            Some(k) => r is Some && r->0@ == name_field(input@, k),
        },
{
    let cs = chars_of(input);
    let j = skip_blanks_from(&cs, 0);
    if !key_at_pos(&cs, j) {
        return None;
    }
    let k = keys_end_from(&cs, j);
    let q = first_angle_from(&cs, k);
    let e = trimmed_end(&cs, k, q);
    Some(input.substring_char(k, e))
}

/// The mail field at the start of `input`: the text between a leading `<` and the next `>`.
/// `None` when `input` does not start with `<`, when the field is empty, holds a space or a
/// tab, or is not closed by `>`.
pub fn co_author_mail(input: &str) -> (r: Option<&str>)
    ensures
        opt_view(r) == mail_field(input@, 0),
{
    let cs = chars_of(input);
    mail_at(input, &cs, 0)
}

fn mail_at<'a>(line: &'a str, cs: &Vec<char>, q: usize) -> (r: Option<&'a str>)
    requires
        cs@ == line@,
        q <= cs.len(),
    ensures
        opt_view(r) == mail_field(line@, q as int),
{
    if q < cs.len() && cs[q] == '<' {
        let e = mail_end_from(cs, q + 1);
        if q + 1 < e && e < cs.len() && cs[e] == '>' {
            Some(line.substring_char(q + 1, e))
        } else {
            None
        }
    } else {
        None
    }
}

/// Parses one line of a commit message as a co-author trailer.
///
/// The line starts, after optional spaces and tabs, with `co-authored-by:` in any ASCII case;
/// the key may be repeated. The name runs up to the first `<` and loses its trailing
/// whitespace; a well-formed `<mail>` right after it is the mail, which is optional.
pub fn parse_co_author(line: &str) -> (r: Result<CoAuthor<'_>, TrailerError>)
    ensures
        match r {
            Ok(c) => trailer_outcome(line@) == Ok::<(Seq<char>, Option<Seq<char>>), TrailerError>(
                (c.name@, opt_view(c.mail)),
            ),
            Err(e) => trailer_outcome(line@) == Err::<(Seq<char>, Option<Seq<char>>), TrailerError>(e),
        },
{
    let cs = chars_of(line);
    let j = skip_blanks_from(&cs, 0);
    if !key_at_pos(&cs, j) {
        return Err(TrailerError::MissingTrailerKey);
    }
    let k = keys_end_from(&cs, j);
    let q = first_angle_from(&cs, k);
    let e = trimmed_end(&cs, k, q);
    if e == k {
        return Err(TrailerError::MissingName);
    }
    let name = line.substring_char(k, e);
    let mail = mail_at(line, &cs, q);
    Ok(CoAuthor { name, mail })
}

/// The co-author that a trailer line names, if any: `None` for a line without a
/// `co-authored-by:` key and for a trailer whose name is missing.
pub fn get_co_author(line: &str) -> (r: Option<CoAuthor<'_>>)
    ensures
        match trailer_outcome(line@) {
            Ok((name, mail)) => r is Some && r->0.name@ == name && opt_view(r->0.mail) == mail,
            Err(_) => r is None,
        },
{
    match parse_co_author(line) {
        Ok(c) => Some(c),
        Err(_) => None,
    }
}

/// Parses a trailer line that must carry a mail address: as `parse_co_author`, and
/// `MissingMail` where that finds a name but no well-formed mail.
pub fn get_co_author_with_mail(line: &str) -> (r: Result<CoAuthor<'_>, TrailerError>)
    ensures
        match trailer_outcome(line@) {
            Ok((name, Some(mail))) => r is Ok && r->Ok_0.name@ == name && r->Ok_0.mail is Some
                && r->Ok_0.mail->0@ == mail,
            Ok((_, None)) => r == Err::<CoAuthor<'_>, TrailerError>(TrailerError::MissingMail),
            Err(e) => r == Err::<CoAuthor<'_>, TrailerError>(e),
        },
{
    match parse_co_author(line) {
        Ok(c) => {
            if c.mail.is_none() {
                Err(TrailerError::MissingMail)
            } else {
                Ok(c)
            }
        },
        Err(e) => Err(e),
    }
}

} // verus!
