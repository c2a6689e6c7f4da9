use vstd::prelude::*;
use vstd::string::StrSliceExecFns;

verus! {

/// The most verbose level of messages that a logger lets through.
#[derive(Copy, Clone, Debug, PartialEq, Eq, Structural, Hash)]
pub enum LevelFilter {
    Off,
    Error,
    Warn,
    Info,
    Debug,
    Trace,
}

/// The level that a name stands for, if any.
pub open spec fn level_of(s: Seq<char>) -> Option<LevelFilter> {
    if s == seq!['t', 'r', 'a', 'c', 'e'] {
        Some(LevelFilter::Trace)
    } else if s == seq!['d', 'e', 'b', 'u', 'g'] {
        Some(LevelFilter::Debug)
    } else if s == seq!['i', 'n', 'f', 'o'] {
        Some(LevelFilter::Info)
    } else if s == seq!['w', 'a', 'r', 'n'] {
        Some(LevelFilter::Warn)
    } else if s == seq!['e', 'r', 'r', 'o', 'r'] {
        Some(LevelFilter::Error)
    } else {
        None
    }
}

/// The pieces of `s` between occurrences of `sep`; there is always at least one.
pub open spec fn split_on(s: Seq<char>, sep: char) -> Seq<Seq<char>>
    decreases s.len(),
{
    if s.len() == 0 {
        seq![Seq::empty()]
    } else {
        let prev = split_on(s.drop_last(), sep);
        if s.last() == sep {
            prev.push(Seq::empty())
        } else {
            prev.update(prev.len() - 1, prev.last().push(s.last()))
        }
    }
}

/// The index of the first `=` of `w`, where there is exactly one.
pub open spec fn single_eq(w: Seq<char>, k: int) -> bool {
    &&& 0 <= k < w.len()
    &&& w[k] == '='
    &&& forall|j: int| 0 <= j < w.len() && j != k ==> #[trigger] w[j] != '='
}

/// A word of a filter: a level alone, allowed first only, or `name=level`.
pub open spec fn word_ok(w: Seq<char>, first: bool) -> bool {
    if !w.contains('=') {
        first && level_of(w) is Some
    } else {
        exists|k: int| single_eq(w, k) && level_of(w.subrange(k + 1, w.len() as int)) is Some
    }
}

/// A filter is empty, or each of its comma-separated words is well formed.
pub open spec fn filter_ok(s: Seq<char>) -> bool {
    s.len() == 0 || forall|i: int|
        0 <= i < split_on(s, ',').len() ==> word_ok(#[trigger] split_on(s, ',')[i], i == 0)
}

/// The level that a filter sets for everything: that of a leading bare level, else off.
pub open spec fn filter_root(s: Seq<char>) -> LevelFilter {
    if s.len() == 0 || split_on(s, ',')[0].contains('=') {
        LevelFilter::Off
    } else {
        level_of(split_on(s, ',')[0])->0
    }
}

/// The `name=level` pairs among the first `n` words, in order.
pub open spec fn pairs_of(words: Seq<Seq<char>>, n: int) -> Seq<(Seq<char>, LevelFilter)>
    decreases n,
{
    if n <= 0 {
        Seq::empty()
    } else {
        let prev = pairs_of(words, n - 1);
        let w = words[n - 1];
        if w.contains('=') {
            let k = choose|k: int| single_eq(w, k);
            prev.push((w.subrange(0, k), level_of(w.subrange(k + 1, w.len() as int))->0))
        } else {
            prev
        }
    }
}

/// The per-module pairs of a filter.
pub open spec fn filter_pairs(s: Seq<char>) -> Seq<(Seq<char>, LevelFilter)> {
    if s.len() == 0 {
        Seq::empty()
    } else {
        let words = split_on(s, ',');
        pairs_of(words, words.len() as int)
    }
}

proof fn lemma_split_nonempty(s: Seq<char>, sep: char)
    ensures
        split_on(s, sep).len() >= 1,
    decreases s.len(),
{
    if s.len() > 0 {
        lemma_split_nonempty(s.drop_last(), sep);
    }
}

/// Whether two texts are the same.
fn same_text(s: &str, lit: &str) -> (r: bool)
    ensures
        r == (s@ == lit@),
{
    let n = s.unicode_len();
    if n != lit.unicode_len() {
        return false;
    }
    let mut i: usize = 0;
    while i < n
        invariant
            n == s@.len(),
            n == lit@.len(),
            i <= n,
            forall|j: int| 0 <= j < i ==> s@[j] == lit@[j],
        decreases n - i,
    {
        if s.get_char(i) != lit.get_char(i) {
            return false;
        }
        i = i + 1;
    }
    assert(s@ =~= lit@);
    true
}

/// The level named by `level`, which must name one.
pub fn parse_level(level: &str) -> (r: LevelFilter)
    requires
        level_of(level@) is Some,
    ensures
        r == level_of(level@)->0,
{
    proof {
        reveal_strlit("trace");
        reveal_strlit("debug");
        reveal_strlit("info");
        reveal_strlit("warn");
        reveal_strlit("error");
        assert("trace"@ =~= seq!['t', 'r', 'a', 'c', 'e']);
        assert("debug"@ =~= seq!['d', 'e', 'b', 'u', 'g']);
        assert("info"@ =~= seq!['i', 'n', 'f', 'o']);
        assert("warn"@ =~= seq!['w', 'a', 'r', 'n']);
        assert("error"@ =~= seq!['e', 'r', 'r', 'o', 'r']);
    }
    if same_text(level, "trace") {
        LevelFilter::Trace
    } else if same_text(level, "debug") {
        LevelFilter::Debug
    } else if same_text(level, "info") {
        LevelFilter::Info
    } else if same_text(level, "warn") {
        LevelFilter::Warn
    } else {
        LevelFilter::Error
    }
}

proof fn lemma_single_eq_unique(w: Seq<char>, k1: int, k2: int)
    requires
        single_eq(w, k1),
        single_eq(w, k2),
    ensures
        k1 == k2,
{
    if k1 != k2 {
        assert(w[k2] != '=');
    }
}

/// The index of the first `=` of `w`, if any.
fn find_eq(w: &str) -> (r: Option<usize>)
    ensures
        r is None ==> !w@.contains('='),
        r matches Some(k) ==> k < w@.len() && w@[k as int] == '=' && forall|j: int|
            0 <= j < k ==> #[trigger] w@[j] != '=',
{
    let n = w.unicode_len();
    let mut i: usize = 0;
    while i < n
        invariant
            n == w@.len(),
            i <= n,
            forall|j: int| 0 <= j < i ==> #[trigger] w@[j] != '=',
        decreases n - i,
    {
        if w.get_char(i) == '=' {
            return Some(i);
        }
        i = i + 1;
    }
    None
}

/// Splits `filter` at its commas.
fn split_words<'a>(filter: &'a str) -> (r: Vec<&'a str>)
    ensures
        r@.map_values(|w: &str| w@) == split_on(filter@, ','),
{
    let n = filter.unicode_len();
    let mut words: Vec<&'a str> = Vec::new();
    let mut start: usize = 0;
    let mut i: usize = 0;
    assert(filter@.take(0) =~= Seq::<char>::empty());
    assert(filter@.subrange(0, 0) =~= Seq::<char>::empty());
    assert(words@.map_values(|w: &str| w@) =~= Seq::<Seq<char>>::empty());
    assert(words@.map_values(|w: &str| w@).push(filter@.subrange(0, 0)) =~= split_on(
        filter@.take(0),
        ',',
    ));
    while i < n
        invariant
            n == filter@.len(),
            start <= i <= n,
            words@.map_values(|w: &str| w@).push(filter@.subrange(start as int, i as int))
                == split_on(filter@.take(i as int), ','),
        decreases n - i,
    {
        let c = filter.get_char(i);
        proof {
            let t = filter@.take(i as int + 1);
            assert(t.drop_last() =~= filter@.take(i as int));
            assert(t.last() == c);
        }
        let ghost before = words@;
        let ghost prev = split_on(filter@.take(i as int), ',');
        if c == ',' {
            let w = filter.substring_char(start, i);
            words.push(w);
            start = i + 1;
            proof {
                assert(words@ == before.push(w));
                assert(words@.map_values(|w: &str| w@) =~= before.map_values(|w: &str| w@).push(
                    w@,
                ));
                assert(filter@.subrange(start as int, i as int + 1) =~= Seq::<char>::empty());
                assert(words@.map_values(|w: &str| w@).push(
                    filter@.subrange(start as int, i as int + 1),
                ) =~= prev.push(Seq::empty()));
            }
        } else {
            proof {
                let cur = filter@.subrange(start as int, i as int);
                assert(filter@.subrange(start as int, i as int + 1) =~= cur.push(c));
                assert(words@.map_values(|w: &str| w@).push(cur.push(c)) =~= prev.update(
                    prev.len() - 1,
                    prev.last().push(c),
                ));
            }
        }
        i = i + 1;
    }
    let w = filter.substring_char(start, n);
    let ghost before = words@;
    words.push(w);
    assert(filter@.take(n as int) =~= filter@);
    assert(words@.map_values(|w: &str| w@) =~= before.map_values(|w: &str| w@).push(w@));
    words
}

/// Reads a filter: an optional leading level for everything, then `name=level`
/// words, separated by commas. The empty filter turns everything off.
pub fn parse_filter<'a>(filter: &'a str) -> (r: (LevelFilter, Vec<(&'a str, LevelFilter)>))
    requires
        filter_ok(filter@),
    ensures
        r.0 == filter_root(filter@),
        r.1@.map_values(|p: (&str, LevelFilter)| (p.0@, p.1)) == filter_pairs(filter@),
{
    let mut root = LevelFilter::Off;
    let mut pairs: Vec<(&'a str, LevelFilter)> = Vec::new();
    if filter.unicode_len() == 0 {
        assert(pairs@.map_values(|p: (&str, LevelFilter)| (p.0@, p.1)) =~= Seq::<
            (Seq<char>, LevelFilter),
        >::empty());
        return (root, pairs);
    }
    let words = split_words(filter);
    let ghost ws = split_on(filter@, ',');
    let mut idx: usize = 0;
    proof {
        lemma_split_nonempty(filter@, ',');
    }
    assert(pairs@.map_values(|p: (&str, LevelFilter)| (p.0@, p.1)) =~= pairs_of(ws, 0));
    while idx < words.len()
        invariant
            words@.map_values(|w: &str| w@) == ws,
            ws == split_on(filter@, ','),
            filter_ok(filter@),
            filter@.len() > 0,
            ws.len() >= 1,
            idx <= words@.len(),
            pairs@.map_values(|p: (&str, LevelFilter)| (p.0@, p.1)) == pairs_of(ws, idx as int),
            root == (if idx > 0 && !ws[0].contains('=') {
                level_of(ws[0])->0
            } else {
                LevelFilter::Off
            }),
        decreases words@.len() - idx,
    {
        let word = words[idx];
        proof {
            assert(word@ == ws[idx as int]);
            assert(word_ok(ws[idx as int], idx == 0));
        }
        match find_eq(word) {
            None => {
                root = parse_level(word);
                proof {
                    assert(pairs_of(ws, idx as int + 1) == pairs_of(ws, idx as int));
                }
            },
            Some(e) => {
                proof {
                    assert(word@.contains('='));
                    let k = choose|k: int|
                        single_eq(word@, k) && level_of(word@.subrange(k + 1, word@.len() as int)) is Some;
                    assert(single_eq(word@, e as int)) by {
                        if e as int != k {
                            if (e as int) < k {
                                assert(word@[e as int] != '=');
                            } else {
                                assert(word@[k] != '=');
                            }
                        }
                    }
                    let k2 = choose|k: int| single_eq(ws[idx as int], k);
                    lemma_single_eq_unique(word@, k2, e as int);
                }
                let len = word.unicode_len();
                let name = word.substring_char(0, e);
                let level = parse_level(word.substring_char(e + 1, len));
                let ghost before = pairs@;
                pairs.push((name, level));
                proof {
                    assert(pairs@.map_values(|p: (&str, LevelFilter)| (p.0@, p.1)) =~= before.map_values(
                        |p: (&str, LevelFilter)| (p.0@, p.1),
                    ).push((name@, level)));
                }
            },
        }
        idx = idx + 1;
    }
    (root, pairs)
}

/// The level named by `level`, if it names one.
pub fn level_named(level: &str) -> (r: Option<LevelFilter>)
    ensures
        r == level_of(level@),
{
    proof {
        reveal_strlit("trace");
        reveal_strlit("debug");
        reveal_strlit("info");
        reveal_strlit("warn");
        reveal_strlit("error");
        assert("trace"@ =~= seq!['t', 'r', 'a', 'c', 'e']);
        assert("debug"@ =~= seq!['d', 'e', 'b', 'u', 'g']);
        assert("info"@ =~= seq!['i', 'n', 'f', 'o']);
        assert("warn"@ =~= seq!['w', 'a', 'r', 'n']);
        assert("error"@ =~= seq!['e', 'r', 'r', 'o', 'r']);
    }
    if same_text(level, "trace") {
        Some(LevelFilter::Trace)
    } else if same_text(level, "debug") {
        Some(LevelFilter::Debug)
    } else if same_text(level, "info") {
        Some(LevelFilter::Info)
    } else if same_text(level, "warn") {
        Some(LevelFilter::Warn)
    } else if same_text(level, "error") {
        Some(LevelFilter::Error)
    } else {
        None
    }
}

/// Whether `word` is a well-formed word of a filter, `first` saying whether it comes
/// first.
fn word_is_ok(word: &str, first: bool) -> (r: bool)
    ensures
        r == word_ok(word@, first),
{
    match find_eq(word) {
        None => first && level_named(word).is_some(),
        Some(e) => {
            let len = word.unicode_len();
            let rest = word.substring_char(e + 1, len);
            match find_eq(rest) {
                Some(j) => {
                    proof {
                        assert(word@[e + 1 + j] == '=');
                        if word_ok(word@, first) {
                            let k = choose|k: int|
                                single_eq(word@, k) && level_of(word@.subrange(k + 1, word@.len() as int)) is Some;
                            assert(word@[e as int] == '=');
                        }
                    }
                    false
                },
                None => {
                    proof {
                        assert(single_eq(word@, e as int)) by {
                            assert forall|j: int| 0 <= j < word@.len() && j != e implies #[trigger] word@[j] != '=' by {
                                if j > e {
                                    assert(rest@[j - e - 1] == word@[j]);
                                    assert(!rest@.contains('=') ==> rest@[j - e - 1] != '=');
                                }
                            }
                        }
                        assert(word@.contains('=')) by {
                            assert(word@[e as int] == '=');
                        }
                        if word_ok(word@, first) {
                            let k = choose|k: int|
                                single_eq(word@, k) && level_of(word@.subrange(k + 1, word@.len() as int)) is Some;
                            lemma_single_eq_unique(word@, k, e as int);
                        }
                    }
                    level_named(rest).is_some()
                },
            }
        },
    }
}

/// Reads a filter, or `None` where it is malformed.
pub fn try_parse_filter<'a>(filter: &'a str) -> (r: Option<(LevelFilter, Vec<(&'a str, LevelFilter)>)>)
    ensures
        r is Some <==> filter_ok(filter@),
        r matches Some(p) ==> p.0 == filter_root(filter@) && p.1@.map_values(
            |p: (&str, LevelFilter)| (p.0@, p.1),
        ) == filter_pairs(filter@),
{
    if filter.unicode_len() == 0 {
        return Some(parse_filter(filter));
    }
    let words = split_words(filter);
    let ghost ws = split_on(filter@, ',');
    let mut idx: usize = 0;
    while idx < words.len()
        invariant
            words@.map_values(|w: &str| w@) == ws,
            ws == split_on(filter@, ','),
            filter@.len() > 0,
            idx <= words@.len(),
            forall|j: int| 0 <= j < idx ==> word_ok(#[trigger] ws[j], j == 0),
        decreases words@.len() - idx,
    {
        let word = words[idx];
        proof {
            assert(word@ == ws[idx as int]);
        }
        if !word_is_ok(word, idx == 0) {
            assert(!word_ok(split_on(filter@, ',')[idx as int], idx == 0));
            return None;
        }
        idx = idx + 1;
    }
    Some(parse_filter(filter))
}

} // verus!
