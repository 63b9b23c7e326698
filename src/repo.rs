//! From commits to pairings: author-name normalization, navigator extraction, and the
//! bookkeeping for one commit.
use crate::author_counts::{can_add_pair, ids_below, pair_added, AuthorCounts, PairedWith};
use crate::co_authors::{chars_of, get_co_author, trailer_outcome};
use crate::stringcache::{intern_id, intern_items, StringCache};
use std::borrow::Cow;
use vstd::prelude::*;
use vstd::string::*;

verus! {

/// The pseudo-author that stands in as navigator on commits without co-authors.
pub const HAN_SOLO: &'static str = "Han Solo";

/// The transliteration of `c`, for the characters that have one.
pub open spec fn umlaut_replacement(c: char) -> Option<Seq<char>> {
    if c == 'Ä' {
        Some(seq!['A', 'e'])
    } else if c == 'ä' {
        Some(seq!['a', 'e'])
    } else if c == 'Ö' {
        Some(seq!['O', 'e'])
    } else if c == 'ö' {
        Some(seq!['o', 'e'])
    } else if c == 'Ü' {
        Some(seq!['U', 'e'])
    } else if c == 'ü' {
        Some(seq!['u', 'e'])
    } else if c == 'ß' {
        Some(seq!['s', 's'])
    } else {
        None
    }
}

/// What `c` becomes under folding.
pub open spec fn fold_char(c: char) -> Seq<char> {
    match umlaut_replacement(c) {
        Some(r) => r,
        None => seq![c],
    }
}

/// `s` with every character that has a transliteration replaced by it, in order.
pub open spec fn fold(s: Seq<char>) -> Seq<char>
    decreases s.len(),
{
    if s.len() == 0 {
        Seq::empty()
    } else {
        fold(s.drop_last()) + fold_char(s.last())
    }
}

/// `s` holds a character that folding replaces.
pub open spec fn has_umlaut(s: Seq<char>) -> bool {
    exists|i: int| 0 <= i < s.len() && (#[trigger] umlaut_replacement(s[i])) is Some
}

/// `name` after the first rule whose source equals it; unchanged when no rule matches.
pub open spec fn replaced(rules: Seq<(Seq<char>, Seq<char>)>, name: Seq<char>) -> Seq<char>
    decreases rules.len(),
{
    if rules.len() == 0 {
        name
    } else if rules[0].0 == name {
        rules[0].1
    } else {
        replaced(rules.drop_first(), name)
    }
}

/// The canonical form of `name` under `rules`: replaced, then folded.
pub open spec fn normalized(rules: Seq<(Seq<char>, Seq<char>)>, name: Seq<char>) -> Seq<char> {
    fold(replaced(rules, name))
}

/// Folding leaves a string without umlauts as it is.
pub proof fn lemma_fold_without_umlauts(s: Seq<char>)
    requires
        !has_umlaut(s),
    ensures
        fold(s) == s,
    decreases s.len(),
{
    if s.len() > 0 {
        assert(!has_umlaut(s.drop_last())) by {
            if has_umlaut(s.drop_last()) {
                let i = choose|i: int|
                    0 <= i < s.drop_last().len() && (#[trigger] umlaut_replacement(s.drop_last()[i])) is Some;
                assert(umlaut_replacement(s[i]) is Some);
            }
        }
        lemma_fold_without_umlauts(s.drop_last());
        assert(umlaut_replacement(s[s.len() - 1]) is None);
        assert(s.drop_last().push(s.last()) =~= s);
    }
}

/// Without replacement rules, normalizing only folds.
pub proof fn lemma_no_rules_only_folds(name: Seq<char>)
    ensures
        normalized(Seq::empty(), name) == fold(name),
{
}

/// Relies on `String::push`: appends one character.
#[verifier::external_body]
fn push_char(s: &mut String, c: char)
    ensures
        final(s)@ == old(s)@.push(c),
{
    s.push(c);
}

/// Relies on `<str as PartialEq>::eq`: two string slices are equal when they hold the
/// same characters.
#[verifier::external_body]
fn same_text(a: &str, b: &str) -> (r: bool)
    ensures
        r == (a@ == b@),
{
    a == b
}

fn umlaut_for(c: char) -> (r: Option<&'static str>)
    ensures
        match r {
            Some(s) => umlaut_replacement(c) == Some(s@),
            None => umlaut_replacement(c) is None,
        },
{
    proof {
        reveal_strlit("Ae");
        reveal_strlit("ae");
        reveal_strlit("Oe");
        reveal_strlit("oe");
        reveal_strlit("Ue");
        reveal_strlit("ue");
        reveal_strlit("ss");
    }
    if c == 'Ä' {
        assert("Ae"@ =~= seq!['A', 'e']);
        Some("Ae")
    } else if c == 'ä' {
        assert("ae"@ =~= seq!['a', 'e']);
        Some("ae")
    } else if c == 'Ö' {
        assert("Oe"@ =~= seq!['O', 'e']);
        Some("Oe")
    } else if c == 'ö' {
        assert("oe"@ =~= seq!['o', 'e']);
        Some("oe")
    } else if c == 'Ü' {
        assert("Ue"@ =~= seq!['U', 'e']);
        Some("Ue")
    } else if c == 'ü' {
        assert("ue"@ =~= seq!['u', 'e']);
        Some("ue")
    } else if c == 'ß' {
        assert("ss"@ =~= seq!['s', 's']);
        Some("ss")
    } else {
        None
    }
}

/// Ordered exact-match replacement rules for author names, `(from, to)`.
pub struct Replacements(pub Vec<(String, String)>);

impl View for Replacements {
    type V = Seq<(Seq<char>, Seq<char>)>;

    open spec fn view(&self) -> Seq<(Seq<char>, Seq<char>)> {
        self.0@.map_values(|p: (String, String)| (p.0@, p.1@))
    }
}

impl Replacements {
    /// The canonical display form of `name`: the target of the first rule whose source
    /// equals it (or `name` itself), with umlauts and sharp s transliterated. Borrows
    /// instead of allocating when nothing needs transliteration.
    pub fn normalize_author_name<'a>(&'a self, name: &'a str) -> (r: Cow<'a, str>)
        ensures
            r@ == normalized(self@, name@),
            !has_umlaut(replaced(self@, name@)) ==> r is Borrowed,
    {
        let mut chosen: &'a str = name;
        let mut i: usize = 0;
        let n = self.0.len();
        assert(self@.subrange(0, n as int) =~= self@);
        while i < n
            invariant
                n == self.0@.len(),
                i <= n,
                chosen == name,
                replaced(self@, name@) == replaced(self@.subrange(i as int, n as int), name@),
            decreases n - i,
        {
            assert(self@.subrange(i as int, n as int).drop_first() =~= self@.subrange(
                i + 1,
                n as int,
            ));
            let rule = &self.0[i];
            if same_text(rule.0.as_str(), name) {
                chosen = rule.1.as_str();
                return Self::replace_umlauts(chosen);
            }
            i = i + 1;
        }
        Self::replace_umlauts(chosen)
    }

    /// `input` with "Ä", "ä", "Ö", "ö", "Ü", "ü" and "ß" transliterated to "Ae", "ae",
    /// "Oe", "oe", "Ue", "ue" and "ss"; `input` itself, borrowed, when it holds none of them.
    pub fn replace_umlauts(input: &str) -> (r: Cow<'_, str>)
        ensures
            r@ == fold(input@),
            !has_umlaut(input@) ==> r == Cow::<'_, str>::Borrowed(input),
    {
        let cs = chars_of(input);
        let mut found = false;
        let mut i: usize = 0;
        while i < cs.len() && !found
            invariant
                cs@ == input@,
                i <= cs.len(),
                forall|j: int| 0 <= j < i ==> (#[trigger] umlaut_replacement(cs@[j])) is None,
                found ==> i < cs.len() && umlaut_replacement(cs@[i as int]) is Some,
            decreases cs.len() - i + (if found { 0int } else { 1int }),
        {
            if umlaut_for(cs[i]).is_some() {
                found = true;
            } else {
                i = i + 1;
            }
        }
        if !found {
            proof {
                lemma_fold_without_umlauts(input@);
            }
            return Cow::Borrowed(input);
        }
        let mut out = String::new();
        let mut j: usize = 0;
        while j < cs.len()
            invariant
                cs@ == input@,
                j <= cs.len(),
                out@ == fold(cs@.take(j as int)),
            decreases cs.len() - j,
        {
            assert(cs@.take(j + 1).drop_last() =~= cs@.take(j as int));
            match umlaut_for(cs[j]) {
                Some(rep) => {
                    out.append(rep);
                },
                None => {
                    push_char(&mut out, cs[j]);
                    assert(seq![cs@[j as int]] =~= fold_char(cs@[j as int]));
                },
            }
            j = j + 1;
        }
        assert(cs@.take(cs@.len() as int) =~= cs@);
        Cow::Owned(out)
    }
}

/// The first `\n` at or after `p`, or the end of `s`.
pub open spec fn line_end(s: Seq<char>, p: int) -> int
    decreases s.len() - p,
{
    if 0 <= p < s.len() && s[p] != '\n' {
        line_end(s, p + 1)
    } else {
        p
    }
}

/// `l` without one trailing carriage return.
pub open spec fn strip_cr(l: Seq<char>) -> Seq<char> {
    if l.len() > 0 && l.last() == '\r' {
        l.drop_last()
    } else {
        l
    }
}

/// The lines of `s` from position `p` on, as `str::lines` splits them: at `\n` or `\r\n`,
/// with no empty line after a final line ending.
pub open spec fn lines_from(s: Seq<char>, p: int) -> Seq<Seq<char>>
    decreases s.len() - p,
{
    if p < 0 || p >= s.len() {
        Seq::empty()
    } else {
        let e = line_end(s, p);
        proof {
            lemma_line_end_bounds(s, p);
        }
        if e < s.len() {
            seq![strip_cr(s.subrange(p, e))] + lines_from(s, e + 1)
        } else {
            seq![s.subrange(p, e)]
        }
    }
}

/// `line_end` moves forward and stays within the text.
pub proof fn lemma_line_end_bounds(s: Seq<char>, p: int)
    requires
        0 <= p <= s.len(),
    ensures
        p <= line_end(s, p) <= s.len(),
    decreases s.len() - p,
{
    if 0 <= p < s.len() && s[p] != '\n' {
        lemma_line_end_bounds(s, p + 1);
    }
}

/// The co-author names of those lines that are trailers with a name, in order.
pub open spec fn navigator_names(lines: Seq<Seq<char>>) -> Seq<Seq<char>>
    decreases lines.len(),
{
    if lines.len() == 0 {
        Seq::empty()
    } else {
        let head = match trailer_outcome(lines[0]) {
            Ok((name, _)) => seq![name],
            Err(_) => Seq::empty(),
        };
        head + navigator_names(lines.drop_first())
    }
}

/// `names`, or the solo pseudo-author alone when `names` is empty.
pub open spec fn pad_solo(names: Seq<Seq<char>>) -> Seq<Seq<char>> {
    if names.len() == 0 {
        seq![HAN_SOLO@]
    } else {
        names
    }
}

/// The navigators of a commit message: the names of its co-author trailers, or the solo
/// pseudo-author when it has none.
pub open spec fn navigators_of(message: Seq<char>) -> Seq<Seq<char>> {
    pad_solo(navigator_names(lines_from(message, 0)))
}

/// The views of a sequence of string slices.
pub open spec fn strs_view(v: Seq<&str>) -> Seq<Seq<char>> {
    v.map_values(|s: &str| s@)
}

fn line_end_from(cs: &Vec<char>, p: usize) -> (r: usize)
    requires
        p <= cs.len(),
    ensures
        r as int == line_end(cs@, p as int),
        p <= r <= cs.len(),
{
    let mut q = p;
    while q < cs.len() && cs[q] != '\n'
        invariant
            p <= q <= cs.len(),
            line_end(cs@, q as int) == line_end(cs@, p as int),
        decreases cs.len() - q,
    {
        q = q + 1;
    }
    q
}

/// The names of the co-authors that `commit_message` names in its trailers, in order;
/// the solo pseudo-author alone when it names none.
pub fn get_navigators(commit_message: &str) -> (r: Vec<&str>)
    ensures
        strs_view(r@) == navigators_of(commit_message@),
{
    let ghost s = commit_message@;
    let cs = chars_of(commit_message);
    let mut r: Vec<&str> = Vec::new();
    let mut p: usize = 0;
    while p < cs.len()
        invariant
            cs@ == s,
            s == commit_message@,
            p <= cs.len(),
            strs_view(r@) + navigator_names(lines_from(s, p as int)) == navigator_names(
                lines_from(s, 0),
            ),
        decreases cs.len() - p,
    {
        let e = line_end_from(&cs, p);
        let le = if e < cs.len() && e > p && cs[e - 1] == '\r' {
            e - 1
        } else {
            e
        };
        let line = commit_message.substring_char(p, le);
        let ghost rest = if e < cs.len() {
            lines_from(s, e + 1)
        } else {
            Seq::empty()
        };
        proof {
            assert(line@ == if e < cs.len() {
                strip_cr(s.subrange(p as int, e as int))
            } else {
                s.subrange(p as int, e as int)
            }) by {
                if e < cs.len() && e > p && cs@[e - 1] == '\r' {
                    assert(s.subrange(p as int, e as int).drop_last() =~= s.subrange(
                        p as int,
                        e - 1,
                    ));
                }
            }
            assert(lines_from(s, p as int) =~= seq![line@] + rest);
            assert((seq![line@] + rest).drop_first() =~= rest);
        }
        let ghost before = strs_view(r@);
        match get_co_author(line) {
            Some(c) => {
                r.push(c.name);
                assert(strs_view(r@) =~= before + seq![c.name@]);
            },
            None => {},
        }
        proof {
            let head = match trailer_outcome(line@) {
                Ok((name, _)) => seq![name],
                Err(_) => Seq::<Seq<char>>::empty(),
            };
            assert(strs_view(r@) =~= before + head);
            assert(navigator_names(seq![line@] + rest) == head + navigator_names(rest));
            assert(before + (head + navigator_names(rest)) =~= (before + head) + navigator_names(
                rest,
            ));
        }
        if e < cs.len() {
            p = e + 1;
        } else {
            p = e;
        }
    }
    if r.len() == 0 {
        r.push(HAN_SOLO);
        assert(strs_view(r@) =~= seq![HAN_SOLO@]);
    } else {
        assert(strs_view(r@) =~= navigator_names(lines_from(s, 0)));
    }
    r
}

/// A string cache that holds the solo pseudo-author, with id 0.
pub fn solo_cache() -> (r: StringCache)
    ensures
        r@ == seq![HAN_SOLO@],
        r.wf(),
{
    let mut cache = StringCache::new();
    let _ = cache.intern(HAN_SOLO);
    assert(cache@ =~= seq![HAN_SOLO@]);
    cache
}

/// The id of `name` once normalized under `replacements`, interned into `cache`.
pub fn author_id(replacements: &Replacements, cache: &mut StringCache, name: &str) -> (r: usize)
    requires
        old(cache).wf(),
    ensures
        r == intern_id(old(cache)@, normalized(replacements@, name@)),
        final(cache)@ == intern_items(old(cache)@, normalized(replacements@, name@)),
        final(cache).wf(),
{
    let name = replacements.normalize_author_name(name);
    match &name {
        Cow::Borrowed(b) => cache.intern(b),
        Cow::Owned(o) => cache.intern(o.as_str()),
    }
}

/// Cache and counts after pairing `driver` with each of `navigators` in turn, each name
/// normalized and interned first; `None` when a count would pass `u32::MAX`.
pub open spec fn pairs_applied(
    rules: Seq<(Seq<char>, Seq<char>)>,
    items: Seq<Seq<char>>,
    m: Map<usize, Map<usize, PairedWith>>,
    driver: usize,
    navigators: Seq<Seq<char>>,
) -> Option<(Seq<Seq<char>>, Map<usize, Map<usize, PairedWith>>)>
    decreases navigators.len(),
{
    if navigators.len() == 0 {
        Some((items, m))
    } else {
        let name = normalized(rules, navigators[0]);
        let id = intern_id(items, name) as usize;
        if can_add_pair(m, driver, id) {
            pairs_applied(
                rules,
                intern_items(items, name),
                pair_added(m, driver, id),
                driver,
                navigators.drop_first(),
            )
        } else {
            None
        }
    }
}

/// Cache and counts after one commit by `author` with message `message`: the author is
/// interned, then paired as driver with each navigator of the message.
pub open spec fn commit_applied(
    rules: Seq<(Seq<char>, Seq<char>)>,
    items: Seq<Seq<char>>,
    m: Map<usize, Map<usize, PairedWith>>,
    author: Seq<char>,
    message: Seq<char>,
) -> Option<(Seq<Seq<char>>, Map<usize, Map<usize, PairedWith>>)> {
    let name = normalized(rules, author);
    pairs_applied(
        rules,
        intern_items(items, name),
        m,
        intern_id(items, name) as usize,
        navigators_of(message),
    )
}

/// Records one commit: its author, normalized and interned, drives a pairing with each
/// navigator that its message names (or with the solo pseudo-author). Returns `false`, and
/// stops recording, when a count would pass `u32::MAX`.
pub fn add_commit(
    replacements: &Replacements,
    cache: &mut StringCache,
    counts: &mut AuthorCounts,
    author: &str,
    message: &str,
) -> (r: bool)
    requires
        old(cache).wf(),
    ensures
        final(cache).wf(),
        ids_below(old(counts)@, old(cache)@.len() as int) ==> ids_below(
            final(counts)@,
            final(cache)@.len() as int,
        ),
        match commit_applied(replacements@, old(cache)@, old(counts)@, author@, message@) {
            Some((items, m)) => r && final(cache)@ == items && final(counts)@ == m,
            None => !r,
        },
{
    let ghost ids_known = ids_below(counts@, cache@.len() as int);
    let driver = author_id(replacements, cache, author);
    proof {
        if ids_known {
            assert(ids_below(counts@, cache@.len() as int));
        }
    }
    let navigators = get_navigators(message);
    let ghost navs = strs_view(navigators@);
    let mut i: usize = 0;
    assert(navs.skip(0) =~= navs);
    while i < navigators.len()
        invariant
            cache.wf(),
            driver < cache@.len(),
            ids_known ==> ids_below(counts@, cache@.len() as int),
            ids_known == ids_below(old(counts)@, old(cache)@.len() as int),
            i <= navigators@.len(),
            navs == strs_view(navigators@),
            commit_applied(replacements@, old(cache)@, old(counts)@, author@, message@)
                == pairs_applied(replacements@, cache@, counts@, driver, navs.skip(i as int)),
        decreases navigators@.len() - i,
    {
        let ghost before_items = cache@;
        let ghost before_counts = counts@;
        let navigator = author_id(replacements, cache, navigators[i]);
        proof {
            assert(navs.skip(i as int)[0] == navigators@[i as int]@);
            assert(navs.skip(i as int).drop_first() =~= navs.skip(i + 1));
        }
        proof {
            if ids_known {
                assert(ids_below(counts@, cache@.len() as int));
            }
        }
        if !counts.can_add_pair(driver, navigator) {
            return false;
        }
        counts.add_pair(driver, navigator);
        i = i + 1;
    }
    true
}

/// Why a `KEY=value` argument was refused.
#[derive(Clone, Copy, Debug, PartialEq, Eq, Structural)]
pub enum KeyValError {
    /// The argument holds no `=`.
    MissingEquals,
}

/// Splits a replacement argument `KEY=value` at its first `=`.
pub fn parse_key_val(s: &str) -> (r: Result<(String, String), KeyValError>)
    ensures
        match r {
            Ok((k, v)) => exists|i: int|
                0 <= i < s@.len() && s@[i] == '=' && (forall|j: int| 0 <= j < i ==> s@[j] != '=')
                    && k@ == s@.subrange(0, i) && v@ == s@.subrange(i + 1, s@.len() as int),
            Err(e) => e == KeyValError::MissingEquals && forall|i: int|
                0 <= i < s@.len() ==> s@[i] != '=',
        },
{
    let cs = chars_of(s);
    let mut i: usize = 0;
    while i < cs.len() && cs[i] != '='
        invariant
            cs@ == s@,
            i <= cs.len(),
            forall|j: int| 0 <= j < i ==> s@[j] != '=',
        decreases cs.len() - i,
    {
        i = i + 1;
    }
    if i == cs.len() {
        return Err(KeyValError::MissingEquals);
    }
    let key = s.substring_char(0, i).to_owned();
    let value = s.substring_char(i + 1, cs.len()).to_owned();
    Ok((key, value))
}

} // verus!
