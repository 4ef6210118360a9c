use vstd::prelude::*;
use vstd::multiset::*;
use crate::text::{
    ascii_lower_char, ascii_lower_seq, chars_of, chars_eq, chars_start_with, string_of, ascii_lower, trimmed_chars, trim, decimal,
    decimal_chars, digit, starts_with,
};
use crate::catalog::{Subject, Episode};

verus! {

/// Similarity and confidence scores are counted in ten-thousandths:
/// `SCORE_ONE` stands for a perfect match.
pub const SCORE_ONE: u32 = 10000;

/// The score given when one normalized title contains the other.
pub const SCORE_CONTAINED: u32 = 8500;

/// What a matching air year adds to a subject's score.
pub const YEAR_BOOST: u32 = 500;

/// Whether `char::is_alphanumeric` holds of a character.
pub uninterp spec fn alnum(c: char) -> bool;

/// What `char::to_lowercase` yields for a character.
pub uninterp spec fn lower(c: char) -> Seq<char>;

pub open spec fn ascii_alnum(c: char) -> bool {
    ('0' <= c && c <= '9') || ('a' <= c && c <= 'z') || ('A' <= c && c <= 'Z')
}

/// Relies on `char::is_alphanumeric` (Unicode Alphabetic or Numeric).
#[verifier::external_body]
fn char_is_alnum(c: char) -> (r: bool)
    ensures
        r == alnum(c),
{
    c.is_alphanumeric()
}

/// Relies on `char::to_lowercase`: the lowercase mapping, one or more characters.
#[verifier::external_body]
fn char_lowercase(c: char) -> (r: Vec<char>)
    ensures
        r@ == lower(c),
{
    c.to_lowercase().collect()
}

/// Whether a lowercased character is kept: ASCII digits and letters, or a
/// non-ASCII alphanumeric; ASCII letters are kept in lowercase.
pub open spec fn keep_char(d: char) -> Seq<char> {
    if (d as u32) < 128 {
        if ascii_alnum(d) { seq![ascii_lower(d)] } else { Seq::empty() }
    } else if alnum(d) {
        seq![d]
    } else {
        Seq::empty()
    }
}

/// The kept characters of a lowercase mapping, in order.
pub open spec fn keep_alnum(s: Seq<char>) -> Seq<char>
    decreases s.len(),
{
    if s.len() == 0 {
        Seq::empty()
    } else {
        keep_alnum(s.drop_last()) + keep_char(s.last())
    }
}

/// What one character contributes to a normalized title: its lowercase form,
/// keeping only alphanumeric characters. ASCII is handled directly.
pub open spec fn norm_char(c: char) -> Seq<char> {
    if (c as u32) < 128 {
        keep_char(c)
    } else {
        keep_alnum(lower(c))
    }
}

/// A character that may stand in a normalized title: a lowercase ASCII
/// letter or digit, or a non-ASCII alphanumeric character.
pub open spec fn normal_char(d: char) -> bool {
    if (d as u32) < 128 {
        ascii_alnum(d) && !('A' <= d && d <= 'Z')
    } else {
        alnum(d)
    }
}

/// A title reduced to its alphanumeric characters, lowercased.
pub open spec fn normalize(s: Seq<char>) -> Seq<char>
    decreases s.len(),
{
    if s.len() == 0 {
        Seq::empty()
    } else {
        normalize(s.drop_last()) + norm_char(s.last())
    }
}

fn push_kept(out: &mut Vec<char>, d: char)
    requires
        forall|q: int| 0 <= q < old(out)@.len() ==> normal_char(#[trigger] old(out)@[q]),
    ensures
        final(out)@ == old(out)@ + keep_char(d),
        forall|q: int| 0 <= q < final(out)@.len() ==> normal_char(#[trigger] final(out)@[q]),
{
    let ghost before = out@;
    if (d as u32) < 128 {
        if ('0' <= d && d <= '9') || ('a' <= d && d <= 'z') || ('A' <= d && d <= 'Z') {
            let l = ascii_lower_char(d);
            assert(normal_char(l));
            out.push(l);
        }
    } else if char_is_alnum(d) {
        out.push(d);
    }
    assert(out@ =~= before + keep_char(d));
}

/// Lowercases a title and keeps its alphanumeric characters.
pub fn normalize_title(value: &str) -> (r: String)
    ensures
        r@ == normalize(value@),
        forall|q: int| 0 <= q < r@.len() ==> normal_char(#[trigger] r@[q]),
{
    let cs = chars_of(value);
    let mut out: Vec<char> = Vec::new();
    let mut i: usize = 0;
    while i < cs.len()
        invariant
            cs@ == value@,
            i <= cs@.len(),
            out@ == normalize(value@.subrange(0, i as int)),
            forall|q: int| 0 <= q < out@.len() ==> normal_char(#[trigger] out@[q]),
        decreases cs.len() - i,
    {
        let c = cs[i];
        assert(value@.subrange(0, i + 1).drop_last() =~= value@.subrange(0, i as int));
        let ghost before = out@;
        if (c as u32) < 128 {
            push_kept(&mut out, c);
        } else {
            let low = char_lowercase(c);
            let mut k: usize = 0;
            assert(low@.subrange(0, 0) =~= Seq::<char>::empty());
            while k < low.len()
                invariant
                    k <= low@.len(),
                    out@ == before + keep_alnum(low@.subrange(0, k as int)),
                    forall|q: int| 0 <= q < out@.len() ==> normal_char(#[trigger] out@[q]),
                decreases low.len() - k,
            {
                assert(low@.subrange(0, k + 1).drop_last() =~= low@.subrange(0, k as int));
                push_kept(&mut out, low[k]);
                k = k + 1;
            }
            assert(low@.subrange(0, low@.len() as int) =~= low@);
        }
        i = i + 1;
    }
    assert(value@.subrange(0, value@.len() as int) =~= value@);
    string_of(&out)
}

/// The consecutive character pairs of a string.
pub open spec fn pairs(s: Seq<char>) -> Seq<(char, char)> {
    Seq::new(if s.len() >= 2 { (s.len() - 1) as nat } else { 0 }, |i: int| (s[i], s[i + 1]))
}

fn pairs_of(cs: &Vec<char>) -> (r: Vec<(char, char)>)
    ensures
        r@ == pairs(cs@),
{
    let mut out: Vec<(char, char)> = Vec::new();
    if cs.len() < 2 {
        assert(out@ =~= pairs(cs@));
        return out;
    }
    let mut i: usize = 0;
    while i + 1 < cs.len()
        invariant
            cs@.len() >= 2,
            i + 1 <= cs@.len(),
            out@ == pairs(cs@).subrange(0, i as int),
        decreases cs.len() - i,
    {
        out.push((cs[i], cs[i + 1]));
        i = i + 1;
        assert(out@ =~= pairs(cs@).subrange(0, i as int));
    }
    assert(out@ =~= pairs(cs@));
    out
}

/// The character bigrams of a string, each as a two-character string.
pub fn bigrams(value: &str) -> (r: Vec<String>)
    ensures
        r@.len() == pairs(value@).len(),
        forall|i: int|
            0 <= i < r@.len() ==> (#[trigger] r@[i])@ == value@.subrange(i, i + 2),
{
    let cs = chars_of(value);
    let ps = pairs_of(&cs);
    let mut out: Vec<String> = Vec::new();
    let mut i: usize = 0;
    while i < ps.len()
        invariant
            cs@ == value@,
            ps@ == pairs(cs@),
            i <= ps@.len(),
            out@.len() == i,
            forall|k: int| 0 <= k < i ==> (#[trigger] out@[k])@ == value@.subrange(k, k + 2),
        decreases ps.len() - i,
    {
        let pair: Vec<char> = vec![ps[i].0, ps[i].1];
        assert(pair@ =~= value@.subrange(i as int, i + 2));
        out.push(string_of(&pair));
        i = i + 1;
    }
    out
}

/// A multiset of the elements of a sequence.
pub open spec fn bag<T>(s: Seq<T>) -> Multiset<T>
    decreases s.len(),
{
    if s.len() == 0 {
        Multiset::empty()
    } else {
        bag(s.drop_first()).insert(s[0])
    }
}

/// The number of bigrams that a one-to-one matching pairs up between the two sides.
pub open spec fn common(a: Seq<(char, char)>, b: Seq<(char, char)>) -> nat {
    bag(a).intersection_with(bag(b)).len()
}

pub open spec fn contains_seq(hay: Seq<char>, needle: Seq<char>) -> bool {
    exists|i: int|
        0 <= i && i + needle.len() <= hay.len() && #[trigger] hay.subrange(i, i + needle.len())
            == needle
}

/// The similarity of two normalized titles, in ten-thousandths.
pub open spec fn sim(a: Seq<char>, b: Seq<char>) -> int {
    if a.len() == 0 || b.len() == 0 {
        0
    } else if a == b {
        SCORE_ONE as int
    } else if contains_seq(a, b) || contains_seq(b, a) {
        SCORE_CONTAINED as int
    } else if pairs(a).len() == 0 || pairs(b).len() == 0 {
        0
    } else {
        (2 * (SCORE_ONE as int) * common(pairs(a), pairs(b))) / ((pairs(a).len() + pairs(b).len()) as int)
    }
}

proof fn lemma_bag_remove<T>(s: Seq<T>, i: int)
    requires
        0 <= i < s.len(),
    ensures
        bag(s.remove(i)) =~= bag(s).remove(s[i]),
        bag(s).count(s[i]) >= 1,
    decreases s.len(),
{
    broadcast use group_multiset_axioms;
    if i == 0 {
        assert(s.remove(0) =~= s.drop_first());
    } else {
        let t = s.drop_first();
        lemma_bag_remove(t, i - 1);
        assert(s.remove(i).drop_first() =~= t.remove(i - 1));
        assert(s.remove(i)[0] == s[0]);
        assert(t[i - 1] == s[i]);
    }
}

proof fn lemma_bag_contains<T>(s: Seq<T>, x: T)
    ensures
        bag(s).count(x) > 0 <==> s.contains(x),
    decreases s.len(),
{
    broadcast use group_multiset_axioms;
    if s.len() > 0 {
        lemma_bag_contains(s.drop_first(), x);
        if s.drop_first().contains(x) {
            let k = choose|k: int| 0 <= k < s.drop_first().len() && s.drop_first()[k] == x;
            assert(s[k + 1] == x);
        }
        if s.contains(x) && s[0] != x {
            let k = choose|k: int| 0 <= k < s.len() && s[k] == x;
            assert(s.drop_first()[k - 1] == x);
        }
    }
}

proof fn lemma_common_step<T>(m: Multiset<T>, r: Multiset<T>, x: T)
    ensures
        r.count(x) > 0 ==> m.insert(x).intersection_with(r).len() == 1 + m.intersection_with(
            r.remove(x),
        ).len(),
        r.count(x) == 0 ==> m.insert(x).intersection_with(r).len() == m.intersection_with(r).len(),
{
    broadcast use group_multiset_axioms;
    broadcast use lemma_intersection_count;
    if r.count(x) > 0 {
        assert(m.insert(x).intersection_with(r) =~= m.intersection_with(r.remove(x)).insert(x));
    } else {
        assert(m.insert(x).intersection_with(r) =~= m.intersection_with(r));
    }
}

/// How many bigrams of `a` find a distinct equal partner in `b`.
fn matched_pairs(a: &Vec<(char, char)>, b: &Vec<(char, char)>) -> (r: usize)
    ensures
        r == common(a@, b@),
        r <= a@.len(),
        r <= b@.len(),
{
    broadcast use group_multiset_axioms;
    let mut remaining: Vec<(char, char)> = Vec::new();
    let mut c: usize = 0;
    while c < b.len()
        invariant
            c <= b@.len(),
            remaining@ == b@.subrange(0, c as int),
        decreases b.len() - c,
    {
        remaining.push(b[c]);
        c = c + 1;
        assert(remaining@ =~= b@.subrange(0, c as int));
    }
    assert(remaining@ =~= b@);
    let mut matches: usize = 0;
    let mut i: usize = 0;
    assert(a@.subrange(0, a@.len() as int) =~= a@);
    while i < a.len()
        invariant
            i <= a@.len(),
            matches <= i,
            remaining@.len() + matches == b@.len(),
            matches + common(a@.subrange(i as int, a@.len() as int), remaining@) == common(a@, b@),
        decreases a.len() - i,
    {
        let x = a[i];
        let ghost rest = a@.subrange(i + 1, a@.len() as int);
        proof {
            assert(a@.subrange(i as int, a@.len() as int).drop_first() =~= rest);
            lemma_common_step(bag(rest), bag(remaining@), x);
            lemma_bag_contains(remaining@, x);
        }
        let mut j: usize = 0;
        while j < remaining.len() && (remaining[j].0 != x.0 || remaining[j].1 != x.1)
            invariant
                j <= remaining@.len(),
                forall|k: int| 0 <= k < j ==> remaining@[k] != x,
            decreases remaining.len() - j,
        {
            j = j + 1;
        }
        if j < remaining.len() {
            proof {
                lemma_bag_remove(remaining@, j as int);
            }
            remaining.remove(j);
            matches = matches + 1;
        } else {
            assert(!remaining@.contains(x));
        }
        i = i + 1;
    }
    proof {
        broadcast use lemma_intersection_count;
        let e = a@.subrange(i as int, a@.len() as int);
        assert(e =~= Seq::<(char, char)>::empty());
        assert(bag(e).intersection_with(bag(remaining@)) =~= Multiset::empty());
    }
    matches
}

fn matches_at(hay: &Vec<char>, needle: &Vec<char>, i: usize) -> (r: bool)
    requires
        i + needle@.len() <= hay@.len(),
    ensures
        r == (hay@.subrange(i as int, i + needle@.len()) == needle@),
{
    let hn = hay.len();
    let mut k: usize = 0;
    while k < needle.len()
        invariant
            hn == hay@.len(),
            i + needle@.len() <= hay@.len(),
            k <= needle@.len(),
            forall|q: int| 0 <= q < k ==> hay@[i + q] == needle@[q],
        decreases needle.len() - k,
    {
        if hay[i + k] != needle[k] {
            assert(hay@.subrange(i as int, i + needle@.len())[k as int] != needle@[k as int]);
            return false;
        }
        k = k + 1;
    }
    assert(hay@.subrange(i as int, i + needle@.len()) =~= needle@);
    true
}

/// Whether `needle` occurs as a contiguous run of `hay`.
fn contains_chars(hay: &Vec<char>, needle: &Vec<char>) -> (r: bool)
    ensures
        r == contains_seq(hay@, needle@),
{
    if needle.len() > hay.len() {
        return false;
    }
    let mut i: usize = 0;
    if needle.len() == 0 {
        assert(hay@.subrange(0int, 0int + needle@.len()) =~= needle@);
        return true;
    }
    let last: usize = hay.len() - needle.len();
    while i < last + 1
        invariant
            last < hay@.len(),
            hay@.len() <= usize::MAX,
            needle@.len() <= hay@.len(),
            last == hay@.len() - needle@.len(),
            i <= last + 1,
            forall|p: int| 0 <= p < i ==> #[trigger] hay@.subrange(p, p + needle@.len()) != needle@,
        decreases last + 1 - i,
    {
        if matches_at(hay, needle, i) {
            return true;
        }
        i = i + 1;
    }
    false
}

/// The similarity of two normalized titles: 0 when either is empty, one when
/// equal, the containment score when one holds the other, else the Dice
/// coefficient of their character bigrams.
pub fn similarity(a: &str, b: &str) -> (r: u32)
    ensures
        r == sim(a@, b@),
        r <= SCORE_ONE,
{
    let ac = chars_of(a);
    let bc = chars_of(b);
    if ac.len() == 0 || bc.len() == 0 {
        return 0;
    }
    if chars_eq(&ac, &bc) {
        return SCORE_ONE;
    }
    if contains_chars(&ac, &bc) || contains_chars(&bc, &ac) {
        return SCORE_CONTAINED;
    }
    let ap = pairs_of(&ac);
    let bp = pairs_of(&bc);
    if ap.len() == 0 || bp.len() == 0 {
        return 0;
    }
    let m = matched_pairs(&ap, &bp);
    let total: u128 = ap.len() as u128 + bp.len() as u128;
    proof {
        let mi = m as int;
        let ti = total as int;
        assert(20000 * mi <= 10000 * ti) by (nonlinear_arith)
            requires mi <= ap@.len(), mi <= bp@.len(), ti == ap@.len() + bp@.len();
        assert((20000 * mi) / ti <= 10000) by (nonlinear_arith)
            requires 20000 * mi <= 10000 * ti, ti > 0;
    }
    ((2 * (SCORE_ONE as u128) * (m as u128)) / total) as u32
}

pub open spec fn max_int(a: int, b: int) -> int {
    if a >= b { a } else { b }
}

/// How well a parsed title matches a subject's name, or its Chinese name when
/// that is not blank.
pub open spec fn title_sim(title: Seq<char>, name: Seq<char>, name_cn: Seq<char>) -> int {
    let by_name = sim(normalize(title), normalize(name));
    let by_cn = if trim(name_cn).len() == 0 {
        0
    } else {
        sim(normalize(title), normalize(name_cn))
    };
    max_int(by_name, by_cn)
}

pub fn title_similarity(title: &str, name: &str, name_cn: &str) -> (r: u32)
    ensures
        r == title_sim(title@, name@, name_cn@),
        r <= SCORE_ONE,
{
    let t = normalize_title(title);
    let n = normalize_title(name);
    let score_name = similarity(t.as_str(), n.as_str());
    let score_cn = if trimmed_chars(name_cn).len() == 0 {
        0
    } else {
        let c = normalize_title(name_cn);
        similarity(t.as_str(), c.as_str())
    };
    if score_name >= score_cn {
        score_name
    } else {
        score_cn
    }
}

/// A score shown with two decimals, rounded half up: 8500 is "0.85".
pub open spec fn fixed2(score: nat) -> Seq<char> {
    let h = (score + 50) / 100;
    decimal(h / 100) + seq!['.', digit((h % 100) / 10), digit(h % 10)]
}

fn fixed2_chars(score: u32) -> (r: Vec<char>)
    ensures
        r@ == fixed2(score as nat),
{
    let h: u64 = (score as u64 + 50) / 100;
    let mut out = decimal_chars(h / 100);
    out.push((((h % 100) / 10) as u8 + 48) as char);
    out.push(((h % 10) as u8 + 48) as char);
    let ghost whole = decimal((h / 100) as nat);
    assert(out@ =~= whole + seq![digit(((h % 100) / 10) as nat), digit((h % 10) as nat)]);
    let mut res: Vec<char> = Vec::new();
    let mut i: usize = 0;
    let wl = out.len() - 2;
    while i < wl
        invariant
            wl == whole.len(),
            out@.len() == wl + 2,
            i <= wl,
            res@ == out@.subrange(0, i as int),
        decreases wl - i,
    {
        res.push(out[i]);
        i = i + 1;
        assert(res@ =~= out@.subrange(0, i as int));
    }
    res.push('.');
    res.push(out[wl]);
    res.push(out[wl + 1]);
    assert(res@ =~= fixed2(score as nat));
    res
}

/// Whether the subject aired in the parsed year.
pub open spec fn year_matches(year: Option<Seq<char>>, date: Option<Seq<char>>) -> bool {
    year is Some && date is Some && starts_with(date->0, year->0)
}

/// A subject's score: its title similarity, raised by the year boost (up to
/// one) when its air date starts with the parsed year.
pub open spec fn subject_score(title: Seq<char>, year: Option<Seq<char>>, subject: Subject) -> int {
    let base = title_sim(title, subject.name@, subject.name_cn@);
    let date = match subject.date {
        Some(d) => Some(d@),
        None => None,
    };
    if year_matches(year, date) {
        if base + YEAR_BOOST >= SCORE_ONE { SCORE_ONE as int } else { base + YEAR_BOOST }
    } else {
        base
    }
}

/// The reason recorded beside a score: the title component, then the year
/// bonus when it applied.
pub open spec fn score_reason(title: Seq<char>, year: Option<Seq<char>>, subject: Subject) -> Seq<char> {
    let base = title_sim(title, subject.name@, subject.name_cn@);
    let date = match subject.date {
        Some(d) => Some(d@),
        None => None,
    };
    let head = "title="@ + fixed2(base as nat);
    if year_matches(year, date) {
        head + ";year=+0.05"@
    } else {
        head
    }
}

pub open spec fn opt_view(o: Option<&str>) -> Option<Seq<char>> {
    match o {
        Some(s) => Some(s@),
        None => None,
    }
}

/// Scores a catalog subject against a parsed title and year.
pub fn score_subject(title: &str, year: Option<&str>, subject: &Subject) -> (r: (u32, String))
    ensures
        r.0 == subject_score(title@, opt_view(year), *subject),
        r.1@ == score_reason(title@, opt_view(year), *subject),
{
    let base = title_similarity(title, subject.name.as_str(), subject.name_cn.as_str());
    let mut reason = chars_of("title=");
    let shown = fixed2_chars(base);
    let mut i: usize = 0;
    let ghost head = reason@;
    while i < shown.len()
        invariant
            i <= shown@.len(),
            reason@ == head + shown@.subrange(0, i as int),
        decreases shown.len() - i,
    {
        reason.push(shown[i]);
        i = i + 1;
        assert(reason@ =~= head + shown@.subrange(0, i as int));
    }
    assert(shown@.subrange(0, shown@.len() as int) =~= shown@);
    let mut score = base;
    let mut boosted = false;
    match (year, &subject.date) {
        (Some(y), Some(d)) => {
            let yc = chars_of(y);
            let dc = chars_of(d.as_str());
            if chars_start_with(&dc, &yc) {
                boosted = true;
            }
        },
        _ => {},
    }
    if boosted {
        score = if base as u64 + YEAR_BOOST as u64 >= SCORE_ONE as u64 {
            SCORE_ONE
        } else {
            base + YEAR_BOOST
        };
        let tail = chars_of(";year=+0.05");
        let mut k: usize = 0;
        let ghost before = reason@;
        while k < tail.len()
            invariant
                k <= tail@.len(),
                reason@ == before + tail@.subrange(0, k as int),
            decreases tail.len() - k,
        {
            reason.push(tail[k]);
            k = k + 1;
            assert(reason@ =~= before + tail@.subrange(0, k as int));
        }
        assert(tail@.subrange(0, tail@.len() as int) =~= tail@);
    }
    (score, string_of(&reason))
}

/// Episode numbers whose whole part exceeds this are not recognised.
pub const EPISODE_CAP: u64 = 1_000_000_000_000_000;

pub open spec fn is_num_char(c: char) -> bool {
    ('0' <= c && c <= '9') || c == '.'
}

pub open spec fn skip_to_num(s: Seq<char>) -> Seq<char>
    decreases s.len(),
{
    if s.len() == 0 || is_num_char(s[0]) {
        s
    } else {
        skip_to_num(s.drop_first())
    }
}

pub open spec fn take_num(s: Seq<char>) -> Seq<char>
    decreases s.len(),
{
    if s.len() > 0 && is_num_char(s[0]) {
        seq![s[0]] + take_num(s.drop_first())
    } else {
        Seq::empty()
    }
}

/// The first run of digits and dots in a string.
pub open spec fn episode_token(s: Seq<char>) -> Seq<char> {
    take_num(skip_to_num(s))
}

/// Reads a run of digits and dots from the left: the number of dots, of
/// digits, the whole part (held once it passes the cap), the number of
/// fraction digits, and the first two fraction digits as hundredths.
pub open spec fn num_scan(t: Seq<char>) -> (int, int, int, int, int)
    decreases t.len(),
{
    if t.len() == 0 {
        (0, 0, 0, 0, 0)
    } else {
        let (d, g, iv, fl, fv) = num_scan(t.drop_last());
        let c = t.last();
        if c == '.' {
            (d + 1, g, iv, fl, fv)
        } else {
            let v = c as int - 48;
            if d == 0 {
                (d, g + 1, if iv > EPISODE_CAP { iv } else { iv * 10 + v }, fl, fv)
            } else {
                (d, g + 1, iv, fl + 1, if fl == 0 { v * 10 } else if fl == 1 { fv + v } else { fv })
            }
        }
    }
}

/// The numeric value, in hundredths, of the first number in an episode
/// string; digits past the second decimal are dropped.
pub open spec fn episode_value(raw: Seq<char>) -> Option<int> {
    let (d, g, iv, fl, fv) = num_scan(episode_token(raw));
    if d > 1 || g == 0 || iv > EPISODE_CAP {
        None
    } else {
        Some(iv * 100 + fv)
    }
}

proof fn lemma_skip_prefix(s: Seq<char>, i: int)
    requires
        0 <= i <= s.len(),
        forall|k: int| 0 <= k < i ==> !is_num_char(#[trigger] s[k]),
    ensures
        skip_to_num(s) == skip_to_num(s.subrange(i, s.len() as int)),
    decreases i,
{
    if i > 0 {
        let t = s.drop_first();
        assert forall|k: int| 0 <= k < i - 1 implies !is_num_char(#[trigger] t[k]) by {
            assert(t[k] == s[k + 1]);
        }
        lemma_skip_prefix(t, i - 1);
        assert(t.subrange(i - 1, t.len() as int) =~= s.subrange(i, s.len() as int));
    } else {
        assert(s.subrange(0, s.len() as int) =~= s);
    }
}

proof fn lemma_take_run(s: Seq<char>, j: int)
    requires
        0 <= j <= s.len(),
        forall|k: int| 0 <= k < j ==> is_num_char(#[trigger] s[k]),
        j == s.len() || !is_num_char(s[j]),
    ensures
        take_num(s) == s.subrange(0, j),
    decreases j,
{
    if j > 0 {
        let t = s.drop_first();
        assert forall|k: int| 0 <= k < j - 1 implies is_num_char(#[trigger] t[k]) by {
            assert(t[k] == s[k + 1]);
        }
        if j < s.len() {
            assert(t[j - 1] == s[j]);
        }
        lemma_take_run(t, j - 1);
        assert(seq![s[0]] + t.subrange(0, j - 1) =~= s.subrange(0, j));
    } else {
        assert(s.subrange(0, 0) =~= Seq::<char>::empty());
    }
}

fn is_num_ch(c: char) -> (r: bool)
    ensures
        r == is_num_char(c),
{
    ('0' <= c && c <= '9') || c == '.'
}

/// Reads the first number of an episode string ("12v2" is 12, "03" is 3,
/// "SP" has none), in hundredths.
pub fn parse_episode_number(raw: &str) -> (r: Option<u64>)
    ensures
        match episode_value(raw@) {
            Some(v) => r is Some && r->0 as int == v,
            None => r is None,
        },
{
    let cs = chars_of(raw);
    let n = cs.len();
    let mut i: usize = 0;
    while i < n && !is_num_ch(cs[i])
        invariant
            cs@ == raw@,
            n == cs@.len(),
            i <= n,
            forall|k: int| 0 <= k < i ==> !is_num_char(#[trigger] cs@[k]),
        decreases n - i,
    {
        i = i + 1;
    }
    proof {
        lemma_skip_prefix(raw@, i as int);
    }
    let ghost rest = raw@.subrange(i as int, n as int);
    assert(skip_to_num(rest) == rest);
    let mut j: usize = i;
    while j < n && is_num_ch(cs[j])
        invariant
            cs@ == raw@,
            n == cs@.len(),
            i <= j <= n,
            forall|k: int| i <= k < j ==> is_num_char(#[trigger] cs@[k]),
        decreases n - j,
    {
        j = j + 1;
    }
    proof {
        assert forall|k: int| 0 <= k < j - i implies is_num_char(#[trigger] rest[k]) by {
            assert(rest[k] == cs@[k + i]);
        }
        if j < n {
            assert(rest[j - i] == cs@[j as int]);
        }
        lemma_take_run(rest, j - i);
        assert(rest.subrange(0, j - i) =~= raw@.subrange(i as int, j as int));
    }
    let ghost tok = raw@.subrange(i as int, j as int);
    assert(episode_token(raw@) == tok);
    let mut dots: u64 = 0;
    let mut digits: u64 = 0;
    let mut whole: u64 = 0;
    let mut frac_len: u64 = 0;
    let mut frac: u64 = 0;
    let mut k: usize = i;
    while k < j
        invariant
            cs@ == raw@,
            i <= k <= j <= n,
            n == cs@.len(),
            tok == raw@.subrange(i as int, j as int),
            forall|q: int| i <= q < j ==> is_num_char(#[trigger] cs@[q]),
            num_scan(tok.subrange(0, k - i)) == (
                dots as int,
                digits as int,
                whole as int,
                frac_len as int,
                frac as int,
            ),
            dots <= k - i,
            digits <= k - i,
            frac_len <= k - i,
            whole <= EPISODE_CAP * 10 + 9,
            frac <= 99,
            frac_len == 1 ==> frac <= 90,
        decreases j - k,
    {
        let c = cs[k];
        assert(tok.subrange(0, k + 1 - i).drop_last() =~= tok.subrange(0, k - i));
        assert(tok.subrange(0, k + 1 - i).last() == c);
        if c == '.' {
            dots = dots + 1;
        } else {
            let v: u64 = (c as u32 - 48) as u64;
            if dots == 0 {
                digits = digits + 1;
                if whole <= EPISODE_CAP {
                    whole = whole * 10 + v;
                }
            } else {
                digits = digits + 1;
                if frac_len == 0 {
                    frac = v * 10;
                } else if frac_len == 1 {
                    frac = frac + v;
                }
                frac_len = frac_len + 1;
            }
        }
        k = k + 1;
    }
    assert(tok.subrange(0, j - i) =~= tok);
    if dots > 1 || digits == 0 || whole > EPISODE_CAP {
        None
    } else {
        Some(whole * 100 + frac)
    }
}

/// Within this distance (0.01) an episode number counts as exact.
pub const EXACT_TOLERANCE: i128 = 1;

/// Within this distance (1.0) the closest episode is still taken.
pub const NEAR_TOLERANCE: i128 = 100;

/// The number an episode is known by: its display number, else its sort key.
pub open spec fn ep_value(e: Episode) -> int {
    match e.ep {
        Some(v) => v as int,
        None => e.sort as int,
    }
}

pub open spec fn ep_diff(e: Episode, t: int) -> int {
    if ep_value(e) >= t { ep_value(e) - t } else { t - ep_value(e) }
}

/// Episode `i` is the first one that matches the target exactly.
pub open spec fn first_exact(eps: Seq<Episode>, t: int, i: int) -> bool {
    &&& 0 <= i < eps.len()
    &&& ep_diff(eps[i], t) <= EXACT_TOLERANCE
    &&& forall|j: int| 0 <= j < i ==> ep_diff(#[trigger] eps[j], t) > EXACT_TOLERANCE
}

/// Episode `i` is the first of those closest to the target.
pub open spec fn first_closest(eps: Seq<Episode>, t: int, i: int) -> bool {
    &&& 0 <= i < eps.len()
    &&& forall|j: int| 0 <= j < eps.len() ==> ep_diff(#[trigger] eps[j], t) >= ep_diff(eps[i], t)
    &&& forall|j: int| 0 <= j < i ==> ep_diff(#[trigger] eps[j], t) > ep_diff(eps[i], t)
}

/// The episode that a parsed episode number picks: the first exact match,
/// else the first closest one when it lies within the near tolerance.
pub open spec fn picks_episode(eps: Seq<Episode>, raw: Seq<char>, r: Option<i64>) -> bool {
    match episode_value(raw) {
        None => r is None,
        Some(t) => {
            if exists|i: int| first_exact(eps, t, i) {
                exists|i: int| first_exact(eps, t, i) && r == Some(eps[i].id)
            } else if exists|i: int|
                0 <= i < eps.len() && ep_diff(#[trigger] eps[i], t) <= NEAR_TOLERANCE {
                exists|i: int| first_closest(eps, t, i) && r == Some(eps[i].id)
            } else {
                r is None
            }
        },
    }
}

fn episode_diff(e: &Episode, t: u64) -> (r: i128)
    ensures
        r == ep_diff(*e, t as int),
{
    let v: i128 = match e.ep {
        Some(v) => v as i128,
        None => e.sort as i128,
    };
    let t2 = t as i128;
    if v >= t2 { v - t2 } else { t2 - v }
}

/// Resolves a parsed episode string against a subject's cached episodes.
pub fn match_episode_id(episode_str: &str, episodes: &Vec<Episode>) -> (r: Option<i64>)
    ensures
        picks_episode(episodes@, episode_str@, r),
{
    let target = match parse_episode_number(episode_str) {
        Some(t) => t,
        None => return None,
    };
    let ghost t = target as int;
    let mut best: Option<(usize, i128)> = None;
    let mut i: usize = 0;
    while i < episodes.len()
        invariant
            episode_value(episode_str@) == Some(t),
            t == target as int,
            i <= episodes@.len(),
            forall|j: int| 0 <= j < i ==> ep_diff(#[trigger] episodes@[j], t) > EXACT_TOLERANCE,
            i == 0 <==> best is None,
            match best {
                Some((b, d)) => b < i && d == ep_diff(episodes@[b as int], t) && (forall|j: int|
                    0 <= j < i ==> ep_diff(#[trigger] episodes@[j], t) >= d) && (forall|j: int|
                    0 <= j < b ==> ep_diff(#[trigger] episodes@[j], t) > d),
                None => true,
            },
        decreases episodes.len() - i,
    {
        let diff = episode_diff(&episodes[i], target);
        if diff <= EXACT_TOLERANCE {
            assert(first_exact(episodes@, t, i as int));
            return Some(episodes[i].id);
        }
        let better = match best {
            Some((_, d)) => diff < d,
            None => true,
        };
        if better {
            best = Some((i, diff));
        }
        i = i + 1;
    }
    assert(forall|k: int| !first_exact(episodes@, t, k));
    match best {
        Some((b, d)) => {
            assert(first_closest(episodes@, t, b as int));
            if d <= NEAR_TOLERANCE {
                Some(episodes[b].id)
            } else {
                assert(forall|k: int| 0 <= k < episodes@.len() ==> ep_diff(#[trigger] episodes@[k], t) > NEAR_TOLERANCE);
                None
            }
        },
        None => None,
    }
}

/// Tuning of an auto-match run. Scores are in ten-thousandths.
#[derive(Debug, Clone)]
pub struct AutoMatchOptions {
    pub limit: u32,
    pub min_candidate_score: u32,
    pub min_confidence: u32,
}

impl Default for AutoMatchOptions {
    fn default() -> (r: Self)
        ensures
            r.limit == 8,
            r.min_candidate_score == 5000,
            r.min_confidence == 9000,
    {
        AutoMatchOptions { limit: 8, min_candidate_score: 5000, min_confidence: 9000 }
    }
}

/// A subject kept as a candidate for a media file, with its score and reason.
#[derive(Debug, Clone)]
pub struct ScoredSubject {
    pub subject_id: i64,
    pub score: u32,
    pub reason: String,
}

/// What an auto-match run decides for one media file: the candidates to
/// persist (in catalog order), the index of the best one, and whether it is
/// confident enough to become the match.
#[derive(Debug, Clone)]
pub struct MatchPlan {
    pub candidates: Vec<ScoredSubject>,
    pub best: Option<usize>,
    pub matched: bool,
}

/// The subjects whose score reaches `min`, in catalog order.
pub open spec fn kept(title: Seq<char>, year: Option<Seq<char>>, subs: Seq<Subject>, min: int) -> Seq<Subject>
    decreases subs.len(),
{
    if subs.len() == 0 {
        Seq::empty()
    } else {
        let k = kept(title, year, subs.drop_last(), min);
        if subject_score(title, year, subs.last()) >= min {
            k.push(subs.last())
        } else {
            k
        }
    }
}

/// Candidate `b` has the highest score, and no earlier one ties it.
pub open spec fn first_best(cands: Seq<ScoredSubject>, b: int) -> bool {
    &&& 0 <= b < cands.len()
    &&& forall|j: int| 0 <= j < cands.len() ==> (#[trigger] cands[j]).score <= cands[b].score
    &&& forall|j: int| 0 <= j < b ==> (#[trigger] cands[j]).score < cands[b].score
}

/// Scores each catalog subject, keeps those reaching the candidate threshold,
/// and picks the best; it becomes the match when it reaches the confidence
/// threshold.
pub fn plan_auto_match(
    title: &str,
    year: Option<&str>,
    subjects: &Vec<Subject>,
    options: &AutoMatchOptions,
) -> (r: MatchPlan)
    ensures
        ({
            let k = kept(title@, opt_view(year), subjects@, options.min_candidate_score as int);
            &&& r.candidates@.len() == k.len()
            &&& forall|i: int|
                0 <= i < k.len() ==> {
                    &&& (#[trigger] r.candidates@[i]).subject_id == k[i].id
                    &&& r.candidates@[i].score == subject_score(title@, opt_view(year), k[i])
                    &&& r.candidates@[i].reason@ == score_reason(title@, opt_view(year), k[i])
                }
        }),
        forall|i: int|
            0 <= i < r.candidates@.len() ==> (#[trigger] r.candidates@[i]).score
                >= options.min_candidate_score,
        r.best is None <==> r.candidates@.len() == 0,
        r.best is Some ==> first_best(r.candidates@, r.best->0 as int),
        r.matched <==> (r.best is Some && r.candidates@[r.best->0 as int].score
            >= options.min_confidence),
{
    let ghost min = options.min_candidate_score as int;
    let mut cands: Vec<ScoredSubject> = Vec::new();
    let mut best: Option<usize> = None;
    let mut i: usize = 0;
    while i < subjects.len()
        invariant
            i <= subjects@.len(),
            min == options.min_candidate_score as int,
            ({
                let k = kept(title@, opt_view(year), subjects@.subrange(0, i as int), min);
                &&& cands@.len() == k.len()
                &&& forall|c: int|
                    0 <= c < k.len() ==> {
                        &&& (#[trigger] cands@[c]).subject_id == k[c].id
                        &&& cands@[c].score == subject_score(title@, opt_view(year), k[c])
                        &&& cands@[c].reason@ == score_reason(title@, opt_view(year), k[c])
                    }
            }),
            forall|c: int| 0 <= c < cands@.len() ==> (#[trigger] cands@[c]).score >= options.min_candidate_score,
            best is None <==> cands@.len() == 0,
            best is Some ==> first_best(cands@, best->0 as int),
        decreases subjects.len() - i,
    {
        let ghost before = cands@;
        let subject = &subjects[i];
        assert(subjects@.subrange(0, i + 1).drop_last() =~= subjects@.subrange(0, i as int));
        assert(subjects@.subrange(0, i + 1).last() == subjects@[i as int]);
        let (score, reason) = score_subject(title, year, subject);
        if score >= options.min_candidate_score {
            let better = match best {
                Some(b) => score > cands[b].score,
                None => true,
            };
            let idx = cands.len();
            cands.push(ScoredSubject { subject_id: subject.id, score, reason });
            assert(forall|c: int| 0 <= c < before.len() ==> cands@[c] == before[c]);
            if better {
                best = Some(idx);
            }
        }
        i = i + 1;
    }
    assert(subjects@.subrange(0, i as int) =~= subjects@);
    let matched = match best {
        Some(b) => cands[b].score >= options.min_confidence,
        None => false,
    };
    MatchPlan { candidates: cands, best, matched }
}

pub open spec fn is_ascii_seq(s: Seq<char>) -> bool {
    forall|i: int| 0 <= i < s.len() ==> (#[trigger] s[i] as u32) < 128
}

pub open spec fn ascii_upper(c: char) -> char {
    if 'a' <= c && c <= 'z' {
        ((c as u8) - 32) as char
    } else {
        c
    }
}

proof fn lemma_normalize_concat(x: Seq<char>, y: Seq<char>)
    ensures
        normalize(x + y) == normalize(x) + normalize(y),
    decreases y.len(),
{
    if y.len() == 0 {
        assert(x + y =~= x);
        assert(normalize(x) + normalize(y) =~= normalize(x));
    } else {
        lemma_normalize_concat(x, y.drop_last());
        assert((x + y).drop_last() =~= x + y.drop_last());
        assert((x + y).last() == y.last());
        assert(normalize(x) + normalize(y.drop_last()) + norm_char(y.last()) =~= normalize(x) + (
        normalize(y.drop_last()) + norm_char(y.last())));
    }
}

proof fn lemma_norm_char_ascii(c: char)
    requires
        (c as u32) < 128,
    ensures
        normalize(norm_char(c)) == norm_char(c),
        norm_char(ascii_lower(c)) == norm_char(c),
        norm_char(ascii_upper(c)) == norm_char(c),
{
    let n = norm_char(c);
    if ascii_alnum(c) {
        let l = ascii_lower(c);
        assert(n == seq![l]);
        assert(n.drop_last() =~= Seq::<char>::empty());
        assert(normalize(n) == normalize(n.drop_last()) + norm_char(l));
        assert(norm_char(l) == seq![l]);
        assert(normalize(n) =~= n);
    } else {
        assert(normalize(n) == Seq::<char>::empty());
    }
}

proof fn lemma_normalize_ascii_idempotent(s: Seq<char>)
    requires
        is_ascii_seq(s),
    ensures
        normalize(normalize(s)) == normalize(s),
    decreases s.len(),
{
    if s.len() > 0 {
        let t = s.drop_last();
        assert(is_ascii_seq(t)) by {
            assert forall|i: int| 0 <= i < t.len() implies (#[trigger] t[i] as u32) < 128 by {
                assert(t[i] == s[i]);
            }
        }
        lemma_normalize_ascii_idempotent(t);
        lemma_normalize_concat(normalize(t), norm_char(s.last()));
        lemma_norm_char_ascii(s.last());
    }
}

pub open spec fn ascii_upper_seq(s: Seq<char>) -> Seq<char> {
    s.map_values(|c: char| ascii_upper(c))
}

pub open spec fn recased(s: Seq<char>, upper: bool) -> Seq<char> {
    if upper { ascii_upper_seq(s) } else { ascii_lower_seq(s) }
}

proof fn lemma_normalize_map(s: Seq<char>, upper: bool)
    requires
        is_ascii_seq(s),
    ensures
        normalize(recased(s, upper)) == normalize(s),
    decreases s.len(),
{
    if s.len() > 0 {
        let t = s.drop_last();
        assert(is_ascii_seq(t)) by {
            assert forall|i: int| 0 <= i < t.len() implies (#[trigger] t[i] as u32) < 128 by {
                assert(t[i] == s[i]);
            }
        }
        lemma_normalize_map(t, upper);
        let m = recased(s, upper);
        assert(m.drop_last() =~= recased(t, upper));
        lemma_norm_char_ascii(s.last());
        if upper {
            assert(m.last() == ascii_upper(s.last()));
        } else {
            assert(m.last() == ascii_lower(s.last()));
        }
    } else {
        assert(recased(s, upper) =~= s);
    }
}

/// Normalizing an ASCII title twice gives what normalizing it once gives,
/// and neither lowercasing nor uppercasing it first changes the result.
pub proof fn lemma_normalize_laws(s: Seq<char>)
    requires
        is_ascii_seq(s),
    ensures
        normalize(normalize(s)) == normalize(s),
        normalize(ascii_lower_seq(s)) == normalize(s),
        normalize(ascii_upper_seq(s)) == normalize(s),
{
    lemma_normalize_ascii_idempotent(s);
    lemma_normalize_map(s, false);
    lemma_normalize_map(s, true);
}

/// Similarity does not depend on the order of its arguments, and a
/// non-empty title is fully similar to itself.
pub proof fn lemma_similarity_laws(a: Seq<char>, b: Seq<char>)
    ensures
        sim(a, b) == sim(b, a),
        a.len() > 0 ==> sim(a, a) == SCORE_ONE,
{
    broadcast use lemma_intersection_count;
    assert(bag(pairs(a)).intersection_with(bag(pairs(b))) =~= bag(pairs(b)).intersection_with(bag(pairs(a))));
}

} // verus!
