//! # Constants
//!
//! The symbol table of named constants (π, e, c, h, …) and the rules by which
//! it is filled and read: ASCII spellings for the constants whose canonical
//! symbol is a glyph, the banner that shipped constant files carry before
//! their JSON, and which entries of such a file are admitted.

use vstd::prelude::*;

use std::collections::HashMap;

use crate::expression::emit::same_text;

verus! {

/// Default of a definition's `enabled` field: constants are on unless a
/// definition says otherwise.
pub fn default_true() -> (on: bool)
    ensures
        on,
{
    true
}

/// User-tunable enable flags: symbol to `true` or `false`. Constants that are
/// off are skipped during symbol resolution.
#[derive(Debug, Clone, Default)]
pub struct ArithmaConstantConfig {
    /// Per-symbol enable map.
    pub enabled_constants: HashMap<String, bool>,
    /// Default for unknown symbols.
    pub enable_all_by_default: bool,
}

/// Handle for the process-wide constants registry, for code that prefers
/// method calls to free functions.
pub struct ArithmaConstants;

/// ASCII spellings for the constants whose canonical symbol is not ASCII.
///
/// Most default constants are keyed by their mathematical glyph. That is
/// right for rendering and awkward for lookup, so each glyph also gets a
/// plain-letter spelling; the glyph keeps working.
///
/// Pairs of `(ascii_alias, canonical_symbol)`, sorted by alias, fixed at
/// compile time and read without allocating.
pub const ASCII_ALIASES: [(&'static str, &'static str); 29] = [
    ("alphaF", "\u{3b1}_F"),
    ("conway", "\u{3bb}"),
    ("delta", "\u{3b4}"),
    ("digamma1", "\u{3c8}(1)"),
    ("euler_mascheroni", "\u{3b3}"),
    ("expPi", "eToPow\u{3c0}"),
    ("feigenbaum_alpha", "\u{3b1}_F"),
    ("feigenbaum_delta", "\u{3b4}"),
    ("gamma", "\u{3b3}"),
    ("golden_ratio", "\u{3c6}"),
    ("lambda", "\u{3bb}"),
    ("phi", "\u{3c6}"),
    ("pi", "\u{3c0}"),
    ("pi_fourThirds", "\u{3c0}fourThirds"),
    ("pi_half", "\u{3c0}half"),
    ("pi_quarter", "\u{3c0}quarter"),
    ("pi_squaredHalf", "\u{3c0}SquaredHalf"),
    ("pi_third", "\u{3c0}third"),
    ("plastic", "\u{3c1}"),
    ("psi1", "\u{3c8}(1)"),
    ("rho", "\u{3c1}"),
    ("salem", "\u{3c3}"),
    ("sigma", "\u{3c3}"),
    ("sqrt2", "\u{221a}2"),
    ("sqrt3", "\u{221a}3"),
    ("sqrt5", "\u{221a}5"),
    ("sqrtPi", "\u{221a}\u{3c0}"),
    ("tau", "\u{3c4}"),
    ("zeta3", "\u{3b6}(3)"),
];

/// The alias table as text: `(alias, canonical)` pairs in table order.
pub open spec fn alias_pairs() -> Seq<(Seq<char>, Seq<char>)> {
    ASCII_ALIASES@.map_values(|p: (&'static str, &'static str)| (p.0@, p.1@))
}

/// The canonical symbol of the first pair in `pairs` whose alias is `alias`.
pub open spec fn alias_target(pairs: Seq<(Seq<char>, Seq<char>)>, alias: Seq<char>) -> Option<
    Seq<char>,
>
    decreases pairs.len(),
{
    if pairs.len() == 0 {
        None
    } else if pairs[0].0 == alias {
        Some(pairs[0].1)
    } else {
        alias_target(pairs.skip(1), alias)
    }
}

/// Resolve an ASCII alias to its canonical symbol, if the table has it.
///
/// A linear scan over the fixed table: bounded by construction, and no
/// allocation.
pub fn resolve_alias(symbol: &str) -> (canonical: Option<&'static str>)
    ensures
        match canonical {
            Some(c) => alias_target(alias_pairs(), symbol@) == Some(c@),
            None => alias_target(alias_pairs(), symbol@) is None,
        },
{
    let mut i: usize = 0;
    assert(alias_pairs().skip(0) =~= alias_pairs());
    while i < ASCII_ALIASES.len()
        invariant
            0 <= i <= ASCII_ALIASES@.len(),
            alias_target(alias_pairs(), symbol@) == alias_target(
                alias_pairs().skip(i as int),
                symbol@,
            ),
        decreases ASCII_ALIASES@.len() - i,
    {
        let (alias, target) = ASCII_ALIASES[i];
        proof {
            assert(alias_pairs().skip(i as int)[0] == (alias@, target@));
            assert(alias_pairs().skip(i as int).skip(1) =~= alias_pairs().skip(i + 1));
        }
        if same_text(alias, symbol) {
            return Some(target);
        }
        i = i + 1;
    }
    proof {
        assert(alias_pairs().skip(i as int).len() == 0);
    }
    None
}

/// Every ASCII alias with its canonical symbol, for discovery and
/// documentation.
pub fn ascii_aliases() -> (table: &'static [(&'static str, &'static str)])
    ensures
        table@ == ASCII_ALIASES@,
{
    &ASCII_ALIASES
}

/// The characters of `s`, in order.
pub fn chars_of(s: &str) -> (v: Vec<char>)
    ensures
        v@ == s@,
{
    let mut v: Vec<char> = Vec::new();
    for c in it: s.chars()
        invariant
            v@ == it.seq().take(it.index() as int),
    {
        v.push(c);
    }
    v
}

/// Unicode `White_Space`, the property that `char::is_whitespace` and
/// `str::trim_start` go by.
pub open spec fn is_white_space(c: char) -> bool {
    let u = c as u32;
    ||| 0x9 <= u <= 0xd
    ||| u == 0x20
    ||| u == 0x85
    ||| u == 0xa0
    ||| u == 0x1680
    ||| 0x2000 <= u <= 0x200a
    ||| u == 0x2028
    ||| u == 0x2029
    ||| u == 0x202f
    ||| u == 0x205f
    ||| u == 0x3000
}

fn white_space(c: char) -> (w: bool)
    ensures
        w == is_white_space(c),
{
    let u = c as u32;
    (0x9 <= u && u <= 0xd) || u == 0x20 || u == 0x85 || u == 0xa0 || u == 0x1680 || (0x2000 <= u
        && u <= 0x200a) || u == 0x2028 || u == 0x2029 || u == 0x202f || u == 0x205f || u == 0x3000
}

/// Index of the first line feed in `s` at or after `from`, or the length of
/// `s` when there is none.
pub open spec fn line_end(s: Seq<char>, from: int) -> int
    decreases s.len() - from,
{
    if from >= s.len() {
        s.len() as int
    } else if s[from] == '\n' {
        from
    } else {
        line_end(s, from + 1)
    }
}

pub proof fn lemma_line_end_bounds(s: Seq<char>, from: int)
    requires
        0 <= from,
    ensures
        from <= s.len() ==> from <= line_end(s, from) <= s.len(),
        from < s.len() ==> line_end(s, from) < s.len() ==> s[line_end(s, from)] == '\n',
    decreases s.len() - from,
{
    if from < s.len() && s[from] != '\n' {
        lemma_line_end_bounds(s, from + 1);
    }
}

/// The line that starts at `from`, without its terminator: a line feed, or a
/// carriage return with a line feed. A carriage return anywhere else stays
/// in the line.
pub open spec fn line_at(s: Seq<char>, from: int) -> Seq<char> {
    let e = line_end(s, from);
    if e < s.len() && e > from && s[e - 1] == '\r' {
        s.subrange(from, e - 1)
    } else {
        s.subrange(from, e)
    }
}

/// The lines of `s` from `from` on, as `str::lines` gives them: a final
/// line feed ends the last line and opens no new one.
pub open spec fn text_lines_from(s: Seq<char>, from: int) -> Seq<Seq<char>>
    decreases s.len() - from,
{
    if from < 0 || from >= s.len() {
        Seq::empty()
    } else {
        proof {
            lemma_line_end_bounds(s, from);
        }
        let e = line_end(s, from);
        if e < s.len() {
            seq![line_at(s, from)] + text_lines_from(s, e + 1)
        } else {
            seq![line_at(s, from)]
        }
    }
}

/// The lines of `s`, as `str::lines` gives them.
pub open spec fn text_lines(s: Seq<char>) -> Seq<Seq<char>> {
    text_lines_from(s, 0)
}

/// How many white-space characters `line` starts with.
pub open spec fn leading_white(line: Seq<char>) -> nat
    decreases line.len(),
{
    if line.len() > 0 && is_white_space(line[0]) {
        1 + leading_white(line.skip(1))
    } else {
        0
    }
}

/// A banner line: blank, or a `//` comment once leading white space is
/// trimmed.
pub open spec fn is_banner(line: Seq<char>) -> bool {
    let t = line.skip(leading_white(line) as int);
    t.len() == 0 || (t.len() >= 2 && t[0] == '/' && t[1] == '/')
}

/// `lines` without the banner lines that open it.
pub open spec fn after_banner(lines: Seq<Seq<char>>) -> Seq<Seq<char>>
    decreases lines.len(),
{
    if lines.len() == 0 {
        lines
    } else if is_banner(lines[0]) {
        after_banner(lines.skip(1))
    } else {
        lines
    }
}

/// Each line followed by a line feed, one after the other.
pub open spec fn joined_lines(lines: Seq<Seq<char>>) -> Seq<char>
    decreases lines.len(),
{
    if lines.len() == 0 {
        Seq::empty()
    } else {
        joined_lines(lines.drop_last()) + lines.last().push('\n')
    }
}

/// A constants document without its comment banner: the lines from the
/// first one that is neither blank nor a `//` comment, each ended by a line
/// feed.
pub open spec fn without_banner(text: Seq<char>) -> Seq<char> {
    joined_lines(after_banner(text_lines(text)))
}

proof fn lemma_after_banner_push(lines: Seq<Seq<char>>, line: Seq<char>)
    ensures
        after_banner(lines.push(line)) == (if after_banner(lines).len() > 0 {
            after_banner(lines).push(line)
        } else if is_banner(line) {
            Seq::<Seq<char>>::empty()
        } else {
            seq![line]
        }),
    decreases lines.len(),
{
    if lines.len() == 0 {
        assert(lines.push(line) =~= seq![line]);
        assert(seq![line].skip(1) =~= Seq::<Seq<char>>::empty());
        assert(after_banner(seq![line].skip(1)).len() == 0);
    } else {
        assert(lines.push(line)[0] == lines[0]);
        assert(lines.push(line).skip(1) =~= lines.skip(1).push(line));
        lemma_after_banner_push(lines.skip(1), line);
    }
}

proof fn lemma_joined_push(lines: Seq<Seq<char>>, line: Seq<char>)
    ensures
        joined_lines(lines.push(line)) == joined_lines(lines) + line.push('\n'),
{
    assert(lines.push(line).drop_last() =~= lines);
}

/// Whether the characters `chars[start..end]` form a banner line.
fn banner_line(chars: &Vec<char>, start: usize, end: usize) -> (banner: bool)
    requires
        start <= end <= chars.len(),
    ensures
        banner == is_banner(chars@.subrange(start as int, end as int)),
{
    let ghost line = chars@.subrange(start as int, end as int);
    let mut i = start;
    assert(line.skip(0) =~= line);
    while i < end && white_space(chars[i])
        invariant
            start <= i <= end <= chars.len(),
            line == chars@.subrange(start as int, end as int),
            leading_white(line) == (i - start) + leading_white(line.skip(i - start)),
        decreases end - i,
    {
        proof {
            let k = i - start;
            assert(line.skip(k)[0] == chars@[i as int]);
            assert(line.skip(k).skip(1) =~= line.skip(k + 1));
        }
        i = i + 1;
    }
    let k: usize = i - start;
    assert(leading_white(line.skip(k as int)) == 0);
    assert(line.skip(k as int) =~= chars@.subrange(i as int, end as int));
    i == end || (end - i >= 2 && chars[i] == '/' && chars[i + 1] == '/')
}

/// Strip the `//` comment banner that shipped constants files carry before
/// their JSON, so that a strict JSON parser accepts the rest.
///
/// Leading lines that are blank or `//` comments are dropped; every line from
/// the first other one on is kept, each ended by a line feed.
pub fn strip_jsonc_header(jsonc: &str) -> (out: String)
    ensures
        out@ == without_banner(jsonc@),
{
    let chars = chars_of(jsonc);
    let n = chars.len();
    let ghost s = jsonc@;
    let mut out = String::new();
    let mut header_done = false;
    let mut pos: usize = 0;
    let ghost mut done: Seq<Seq<char>> = Seq::empty();
    assert(done + text_lines_from(s, 0) =~= text_lines(s));
    while pos < n
        invariant
            chars@ == s,
            s == jsonc@,
            n == chars.len(),
            pos <= n,
            done + text_lines_from(s, pos as int) == text_lines(s),
            header_done == (after_banner(done).len() > 0),
            out@ == joined_lines(after_banner(done)),
        decreases n - pos,
    {
        let mut e = pos;
        while e < n && chars[e] != '\n'
            invariant
                chars@ == s,
                n == chars.len(),
                pos <= e <= n,
                line_end(s, pos as int) == line_end(s, e as int),
            decreases n - e,
        {
            e = e + 1;
        }
        assert(line_end(s, e as int) == e);
        let content_end = if e < n && e > pos && chars[e - 1] == '\r' {
            e - 1
        } else {
            e
        };
        let ghost line = line_at(s, pos as int);
        assert(line == s.subrange(pos as int, content_end as int));
        let banner = banner_line(&chars, pos, content_end);
        proof {
            lemma_after_banner_push(done, line);
            lemma_joined_push(after_banner(done), line);
            if after_banner(done).len() == 0 {
                assert(after_banner(done) =~= Seq::<Seq<char>>::empty());
                assert(after_banner(done).push(line) =~= seq![line]);
            }
            reveal_strlit("\n");
        }
        if header_done || !banner {
            let piece = jsonc.substring_char(pos, content_end);
            out.append(piece);
            out.append("\n");
            header_done = true;
        }
        let next = if e < n {
            e + 1
        } else {
            n
        };
        proof {
            if e < n {
                assert(text_lines_from(s, pos as int) == seq![line] + text_lines_from(s, e + 1));
            } else {
                assert(text_lines_from(s, pos as int) == seq![line]);
                assert(text_lines_from(s, next as int) =~= Seq::<Seq<char>>::empty());
            }
            assert(done.push(line) + text_lines_from(s, next as int) =~= done + text_lines_from(
                s,
                pos as int,
            ));
            done = done.push(line);
        }
        pos = next;
    }
    assert(done =~= text_lines(s));
    out
}

/// The map that a list of `(symbol, value)` entries stands for; a later
/// entry for a symbol hides an earlier one.
pub open spec fn entries_map<V>(entries: Seq<(String, V)>) -> Map<Seq<char>, V>
    decreases entries.len(),
{
    if entries.len() == 0 {
        Map::empty()
    } else {
        entries_map(entries.drop_last()).insert(entries.last().0@, entries.last().1)
    }
}

/// No symbol occurs twice in `entries`.
pub open spec fn distinct_symbols<V>(entries: Seq<(String, V)>) -> bool {
    forall|i: int, j: int|
        0 <= i < j < entries.len() ==> #[trigger] entries[i].0@ != #[trigger] entries[j].0@
}

proof fn lemma_entries_map<V>(entries: Seq<(String, V)>)
    requires
        distinct_symbols(entries),
    ensures
        entries_map(entries).dom().finite(),
        entries_map(entries).dom().len() == entries.len(),
        forall|k: Seq<char>|
            #[trigger] entries_map(entries).contains_key(k) <==> exists|i: int|
                0 <= i < entries.len() && entries[i].0@ == k,
        forall|i: int|
            0 <= i < entries.len() ==> #[trigger] entries_map(entries)[entries[i].0@]
                == entries[i].1,
    decreases entries.len(),
{
    if entries.len() > 0 {
        let rest = entries.drop_last();
        assert(distinct_symbols(rest));
        lemma_entries_map(rest);
        let last = entries.last();
        assert(!entries_map(rest).contains_key(last.0@)) by {
            if entries_map(rest).contains_key(last.0@) {
                let i = choose|i: int| 0 <= i < rest.len() && rest[i].0@ == last.0@;
                assert(entries[i].0@ == entries[entries.len() - 1].0@);
            }
        }
        assert forall|k: Seq<char>|
            #[trigger] entries_map(entries).contains_key(k) implies exists|i: int|
                0 <= i < entries.len() && entries[i].0@ == k by {
            if k != last.0@ {
                let i = choose|i: int| 0 <= i < rest.len() && rest[i].0@ == k;
                assert(entries[i].0@ == k);
            } else {
                assert(entries[entries.len() - 1].0@ == k);
            }
        }
        assert forall|k: Seq<char>|
            (exists|i: int| 0 <= i < entries.len() && entries[i].0@ == k) implies #[trigger]
            entries_map(entries).contains_key(k) by {
            let i = choose|i: int| 0 <= i < entries.len() && entries[i].0@ == k;
            if i < entries.len() - 1 {
                assert(rest[i].0@ == k);
            }
        }
        assert forall|i: int| 0 <= i < entries.len() implies #[trigger] entries_map(
            entries,
        )[entries[i].0@] == entries[i].1 by {
            if i < entries.len() - 1 {
                assert(rest[i] == entries[i]);
                assert(entries[i].0@ != last.0@);
            }
        }
    }
}

proof fn lemma_entries_map_update<V>(entries: Seq<(String, V)>, i: int, entry: (String, V))
    requires
        distinct_symbols(entries),
        0 <= i < entries.len(),
        entry.0@ == entries[i].0@,
    ensures
        distinct_symbols(entries.update(i, entry)),
        entries_map(entries.update(i, entry)) == entries_map(entries).insert(entry.0@, entry.1),
    decreases entries.len(),
{
    let updated = entries.update(i, entry);
    assert(distinct_symbols(updated)) by {
        assert forall|a: int, b: int| 0 <= a < b < updated.len() implies #[trigger] updated[a].0@
            != #[trigger] updated[b].0@ by {
            assert(entries[a].0@ != entries[b].0@);
        }
    }
    let rest = entries.drop_last();
    assert(distinct_symbols(rest));
    if i == entries.len() - 1 {
        assert(updated.drop_last() =~= rest);
        assert(entries_map(entries) == entries_map(rest).insert(entries.last().0@, entries.last().1));
        assert(entries_map(updated) =~= entries_map(entries).insert(entry.0@, entry.1));
    } else {
        assert(updated.drop_last() =~= rest.update(i, entry));
        lemma_entries_map_update(rest, i, entry);
        assert(entries[i].0@ != entries.last().0@);
        assert(updated.last() == entries.last());
        assert(entries_map(updated) =~= entries_map(entries).insert(entry.0@, entry.1));
    }
}

/// Text of the error that refuses a symbol registered already.
pub open spec fn already_registered(symbol: Seq<char>) -> Seq<char> {
    "Symbol '"@ + symbol + "' is already registered"@
}

/// The symbol under which `symbol` is found in `m`: itself when it is
/// there, else the canonical symbol that it is an ASCII alias of, when that
/// is there. An exact entry therefore hides an alias.
pub open spec fn found_key<V>(m: Map<Seq<char>, V>, symbol: Seq<char>) -> Option<Seq<char>> {
    if m.contains_key(symbol) {
        Some(symbol)
    } else {
        match alias_target(alias_pairs(), symbol) {
            Some(c) => if m.contains_key(c) {
                Some(c)
            } else {
                None
            },
            None => None,
        }
    }
}

/// One definition of a constants document, as the loader reads it: the
/// symbol, whether it is enabled, whether it carries a cached value or an
/// expression, and the value that it registers.
pub struct ArithmaConstantEntry<V> {
    pub symbol: String,
    pub enabled: bool,
    pub has_cached_value: bool,
    pub has_expression: bool,
    pub value: V,
}

/// Text of the error for a definition with an empty symbol.
pub open spec fn empty_symbol_error() -> Seq<char> {
    "constant entry has an empty symbol"@
}

/// Text of the error for a definition that can never be evaluated.
pub open spec fn no_value_error(symbol: Seq<char>) -> Seq<char> {
    "constant '"@ + symbol + "' has neither cached_value nor expression"@
}

/// Loading `entries` in order into a table that stands for `m`: the table
/// it leaves, and the number of symbols registered or the error that
/// stopped the load. Disabled definitions are skipped; the first enabled one
/// with an empty symbol, or with neither a cached value nor an expression,
/// stops the load with the definitions before it registered; every other
/// one replaces or adds its symbol.
pub open spec fn load_outcome<V>(m: Map<Seq<char>, V>, entries: Seq<ArithmaConstantEntry<V>>) -> (
    Map<Seq<char>, V>,
    Result<nat, Seq<char>>,
)
    decreases entries.len(),
{
    if entries.len() == 0 {
        (m, Ok(0))
    } else {
        let e = entries[0];
        if !e.enabled {
            load_outcome(m, entries.skip(1))
        } else if e.symbol@.len() == 0 {
            (m, Err(empty_symbol_error()))
        } else if !e.has_cached_value && !e.has_expression {
            (m, Err(no_value_error(e.symbol@)))
        } else {
            let (rest, r) = load_outcome(m.insert(e.symbol@, e.value), entries.skip(1));
            (
                rest,
                match r {
                    Ok(n) => Ok(n + 1),
                    Err(msg) => Err(msg),
                },
            )
        }
    }
}

/// `outcome` with `count` more symbols registered.
pub open spec fn counted<V>(outcome: (Map<Seq<char>, V>, Result<nat, Seq<char>>), count: nat) -> (
    Map<Seq<char>, V>,
    Result<nat, Seq<char>>,
) {
    (
        outcome.0,
        match outcome.1 {
            Ok(n) => Ok(n + count),
            Err(msg) => Err(msg),
        },
    )
}

/// The table of registered symbols and the values they stand for.
///
/// Constants and variables both live here, each symbol at most once.
pub struct ArithmaSymbolTable<V> {
    entries: Vec<(String, V)>,
}

impl<V> View for ArithmaSymbolTable<V> {
    type V = Map<Seq<char>, V>;

    closed spec fn view(&self) -> Map<Seq<char>, V> {
        entries_map(self.entries@)
    }
}

impl<V> ArithmaSymbolTable<V> {
    /// The table holds each symbol at most once.
    #[verifier::type_invariant]
    closed spec fn wf(&self) -> bool {
        distinct_symbols(self.entries@)
    }

    /// An empty table.
    pub fn new() -> (t: Self)
        ensures
            t@ == Map::<Seq<char>, V>::empty(),
    {
        ArithmaSymbolTable { entries: Vec::new() }
    }

    /// Index of the entry for `symbol`, if there is one.
    fn position(&self, symbol: &str) -> (at: Option<usize>)
        ensures
            distinct_symbols(self.entries@),
            match at {
                Some(i) => i < self.entries.len() && self.entries@[i as int].0@ == symbol@,
                None => !self@.contains_key(symbol@),
            },
    {
        proof {
            use_type_invariant(self);
            lemma_entries_map(self.entries@);
        }
        let mut i: usize = 0;
        while i < self.entries.len()
            invariant
                i <= self.entries.len(),
                distinct_symbols(self.entries@),
                forall|j: int| 0 <= j < i ==> self.entries@[j].0@ != symbol@,
            decreases self.entries.len() - i,
        {
            if same_text(self.entries[i].0.as_str(), symbol) {
                return Some(i);
            }
            i = i + 1;
        }
        None
    }

    /// Look a symbol up: the symbol exactly as given, and failing that the
    /// constant whose ASCII alias it is. Exact matches win, so a caller who
    /// registers their own `pi` hides the alias.
    pub fn lookup_symbol(&self, symbol: &str) -> (found: Option<&V>)
        ensures
            match found {
                Some(v) => found_key(self@, symbol@) matches Some(k) && *v == self@[k],
                None => found_key(self@, symbol@) is None,
            },
    {
        proof {
            use_type_invariant(self);
            lemma_entries_map(self.entries@);
        }
        match self.position(symbol) {
            Some(i) => Some(&self.entries[i].1),
            None => match resolve_alias(symbol) {
                Some(canonical) => match self.position(canonical) {
                    Some(i) => Some(&self.entries[i].1),
                    None => None,
                },
                None => None,
            },
        }
    }

    /// Register a symbol; a symbol that is registered already is refused,
    /// and the table is left as it was.
    pub fn register_symbol(&mut self, symbol: String, value: V) -> (r: Result<(), String>)
        ensures
            r is Err <==> old(self)@.contains_key(symbol@),
            match r {
                Ok(_) => final(self)@ == old(self)@.insert(symbol@, value),
                Err(msg) => msg@ == already_registered(symbol@) && final(self)@ == old(self)@,
            },
    {
        match self.position(symbol.as_str()) {
            Some(i) => {
                proof {
                    lemma_entries_map(self.entries@);
                    reveal_strlit("Symbol '");
                    reveal_strlit("' is already registered");
                }
                let mut msg = String::from_str("Symbol '");
                msg.append(symbol.as_str());
                msg.append("' is already registered");
                Err(msg)
            },
            None => {
                proof {
                    lemma_entries_map(self.entries@);
                }
                self.push_new(symbol, value);
                Ok(())
            },
        }
    }

    /// Replace the value of a symbol, or register it fresh.
    pub fn reregister_symbol(&mut self, symbol: String, value: V)
        ensures
            final(self)@ == old(self)@.insert(symbol@, value),
    {
        match self.position(symbol.as_str()) {
            Some(i) => {
                let ghost entry = (symbol, value);
                proof {
                    lemma_entries_map_update(self.entries@, i as int, entry);
                }
                let mut entries: Vec<(String, V)> = Vec::new();
                std::mem::swap(&mut entries, &mut self.entries);
                entries.set(i, (symbol, value));
                self.entries = entries;
            },
            None => {
                proof {
                    lemma_entries_map(self.entries@);
                }
                self.push_new(symbol, value);
            },
        }
    }

    /// Append an entry for a symbol that is not registered yet.
    fn push_new(&mut self, symbol: String, value: V)
        requires
            !old(self)@.contains_key(symbol@),
        ensures
            final(self)@ == old(self)@.insert(symbol@, value),
    {
        proof {
            use_type_invariant(&*self);
            lemma_entries_map(self.entries@);
        }
        let ghost key = symbol@;
        let ghost before = self.entries@;
        let mut entries: Vec<(String, V)> = Vec::new();
        std::mem::swap(&mut entries, &mut self.entries);
        entries.push((symbol, value));
        proof {
            assert(entries@.drop_last() =~= before);
            assert forall|a: int, b: int| 0 <= a < b < entries@.len() implies
                #[trigger] entries@[a].0@ != #[trigger] entries@[b].0@ by {
                if b == entries@.len() - 1 {
                    assert(before[a].0@ != key);
                } else {
                    assert(before[a].0@ != before[b].0@);
                }
            }
            lemma_entries_map(entries@);
        }
        self.entries = entries;
    }

    /// Number of registered symbols.
    pub fn registered_count(&self) -> (n: usize)
        ensures
            n == self@.len(),
    {
        proof {
            use_type_invariant(self);
            lemma_entries_map(self.entries@);
        }
        self.entries.len()
    }

    /// Load constant definitions in order.
    ///
    /// Disabled definitions are skipped. A definition with an empty symbol,
    /// or with neither a cached value nor an expression, stops the load with
    /// an error; the definitions before it stay registered. Every other
    /// definition replaces or adds its symbol, so loading the same document
    /// twice is harmless. Returns the number of symbols registered.
    pub fn load_entries(&mut self, entries: Vec<ArithmaConstantEntry<V>>) -> (r: Result<
        usize,
        String,
    >)
        ensures
            final(self)@ == load_outcome(old(self)@, entries@).0,
            match r {
                Ok(n) => load_outcome(old(self)@, entries@).1 == Ok::<nat, Seq<char>>(n as nat),
                Err(msg) => load_outcome(old(self)@, entries@).1 == Err::<nat, Seq<char>>(msg@),
            },
    {
        let ghost all = entries@;
        let ghost start = self@;
        let total = entries.len();
        let mut registered: usize = 0;
        assert(all.skip(0) =~= all);
        for e in it: entries
            invariant
                it.seq() == all,
                all == entries@,
                all.len() == total,
                start == old(self)@,
                registered <= it.index(),
                load_outcome(start, all) == counted(
                    load_outcome(self@, all.skip(it.index() as int)),
                    registered as nat,
                ),
        {
            let ghost k = it.index() as int;
            proof {
                assert(all.skip(k)[0] == e);
                assert(all.skip(k).skip(1) =~= all.skip(k + 1));
            }
            if e.enabled {
                let symbol_len = e.symbol.as_str().unicode_len();
                if symbol_len == 0 {
                    proof {
                        assert(e.symbol@.len() == 0);


                        reveal_strlit("constant entry has an empty symbol");
                    }
                    let msg = String::from_str("constant entry has an empty symbol");
                    return Err(msg);
                }
                if !e.has_cached_value && !e.has_expression {
                    proof {
                        reveal_strlit("constant '");
                        reveal_strlit("' has neither cached_value nor expression");
                    }
                    let mut msg = String::from_str("constant '");
                    msg.append(e.symbol.as_str());
                    msg.append("' has neither cached_value nor expression");
                    return Err(msg);
                }
                self.reregister_symbol(e.symbol, e.value);
                registered = registered + 1;
            }
        }
        assert(all.skip(all.len() as int) =~= Seq::<ArithmaConstantEntry<V>>::empty());
        Ok(registered)
    }
}


proof fn lemma_load_overlays<V>(m: Map<Seq<char>, V>, entries: Seq<ArithmaConstantEntry<V>>)
    ensures
        load_outcome(m, entries).0 == m.union_prefer_right(
            load_outcome(Map::<Seq<char>, V>::empty(), entries).0,
        ),
        load_outcome(m, entries).1 == load_outcome(Map::<Seq<char>, V>::empty(), entries).1,
    decreases entries.len(),
{
    let empty = Map::<Seq<char>, V>::empty();
    if entries.len() == 0 {
        assert(m.union_prefer_right(empty) =~= m);
    } else {
        let e = entries[0];
        let rest = entries.skip(1);
        if !e.enabled {
            lemma_load_overlays(m, rest);
        } else if e.symbol@.len() == 0 || (!e.has_cached_value && !e.has_expression) {
            assert(m.union_prefer_right(empty) =~= m);
        } else {
            let single = empty.insert(e.symbol@, e.value);
            lemma_load_overlays(m.insert(e.symbol@, e.value), rest);
            lemma_load_overlays(single, rest);
            let d = load_outcome(empty, rest).0;
            assert(m.insert(e.symbol@, e.value).union_prefer_right(d) =~= m.union_prefer_right(
                single.union_prefer_right(d),
            ));
        }
    }
}

/// Loading is idempotent: loading the same definitions a second time leaves
/// the table as the first load left it, and reports the same count, or the
/// same error.
pub proof fn law_loading_twice_changes_nothing<V>(
    m: Map<Seq<char>, V>,
    entries: Seq<ArithmaConstantEntry<V>>,
)
    ensures
        load_outcome(load_outcome(m, entries).0, entries) == load_outcome(m, entries),
{
    let empty = Map::<Seq<char>, V>::empty();
    let once = load_outcome(m, entries).0;
    lemma_load_overlays(m, entries);
    lemma_load_overlays(once, entries);
    let d = load_outcome(empty, entries).0;
    assert(m.union_prefer_right(d).union_prefer_right(d) =~= m.union_prefer_right(d));
}

/// A symbol registered exactly as asked for is found before any alias: the
/// exact entry hides the constant that the spelling is an alias of.
pub proof fn law_exact_match_beats_alias<V>(m: Map<Seq<char>, V>, symbol: Seq<char>)
    requires
        m.contains_key(symbol),
    ensures
        found_key(m, symbol) == Some(symbol),
{
}

/// An alias finds the constant stored under its canonical symbol when
/// nothing is registered under the alias itself.
pub proof fn law_alias_finds_canonical<V>(m: Map<Seq<char>, V>, alias: Seq<char>, canonical: Seq<
    char,
>)
    requires
        !m.contains_key(alias),
        alias_target(alias_pairs(), alias) == Some(canonical),
        m.contains_key(canonical),
    ensures
        found_key(m, alias) == Some(canonical),
{
}

/// `a` comes strictly before `b` in the order of `str`'s `<`: by code
/// point, character by character, a proper prefix first.
pub open spec fn text_precedes(a: Seq<char>, b: Seq<char>) -> bool
    decreases a.len(),
{
    if a.len() == 0 {
        b.len() > 0
    } else if b.len() == 0 {
        false
    } else if a[0] != b[0] {
        a[0] < b[0]
    } else {
        text_precedes(a.drop_first(), b.drop_first())
    }
}

/// The alias table is sorted by alias, each alias strictly after the one
/// before it, so no alias occurs twice.
pub proof fn law_alias_table_is_sorted()
    ensures
        forall|i: int|
            0 <= i < alias_pairs().len() - 1 ==> text_precedes(
                #[trigger] alias_pairs()[i].0,
                alias_pairs()[i + 1].0,
            ),
{
    reveal_strlit("alphaF");
    reveal_strlit("conway");
    reveal_strlit("delta");
    reveal_strlit("digamma1");
    reveal_strlit("euler_mascheroni");
    reveal_strlit("expPi");
    reveal_strlit("feigenbaum_alpha");
    reveal_strlit("feigenbaum_delta");
    reveal_strlit("gamma");
    reveal_strlit("golden_ratio");
    reveal_strlit("lambda");
    reveal_strlit("phi");
    reveal_strlit("pi");
    reveal_strlit("pi_fourThirds");
    reveal_strlit("pi_half");
    reveal_strlit("pi_quarter");
    reveal_strlit("pi_squaredHalf");
    reveal_strlit("pi_third");
    reveal_strlit("plastic");
    reveal_strlit("psi1");
    reveal_strlit("rho");
    reveal_strlit("salem");
    reveal_strlit("sigma");
    reveal_strlit("sqrt2");
    reveal_strlit("sqrt3");
    reveal_strlit("sqrt5");
    reveal_strlit("sqrtPi");
    reveal_strlit("tau");
    reveal_strlit("zeta3");
    reveal_with_fuel(text_precedes, 13);
    assert(text_precedes("alphaF"@, "conway"@));
    assert(text_precedes("conway"@, "delta"@));
    assert(text_precedes("delta"@, "digamma1"@));
    assert(text_precedes("digamma1"@, "euler_mascheroni"@));
    assert(text_precedes("euler_mascheroni"@, "expPi"@));
    assert(text_precedes("expPi"@, "feigenbaum_alpha"@));
    assert(text_precedes("feigenbaum_alpha"@, "feigenbaum_delta"@));
    assert(text_precedes("feigenbaum_delta"@, "gamma"@));
    assert(text_precedes("gamma"@, "golden_ratio"@));
    assert(text_precedes("golden_ratio"@, "lambda"@));
    assert(text_precedes("lambda"@, "phi"@));
    assert(text_precedes("phi"@, "pi"@));
    assert(text_precedes("pi"@, "pi_fourThirds"@));
    assert(text_precedes("pi_fourThirds"@, "pi_half"@));
    assert(text_precedes("pi_half"@, "pi_quarter"@));
    assert(text_precedes("pi_quarter"@, "pi_squaredHalf"@));
    assert(text_precedes("pi_squaredHalf"@, "pi_third"@));
    assert(text_precedes("pi_third"@, "plastic"@));
    assert(text_precedes("plastic"@, "psi1"@));
    assert(text_precedes("psi1"@, "rho"@));
    assert(text_precedes("rho"@, "salem"@));
    assert(text_precedes("salem"@, "sigma"@));
    assert(text_precedes("sigma"@, "sqrt2"@));
    assert(text_precedes("sqrt2"@, "sqrt3"@));
    assert(text_precedes("sqrt3"@, "sqrt5"@));
    assert(text_precedes("sqrt5"@, "sqrtPi"@));
    assert(text_precedes("sqrtPi"@, "tau"@));
    assert(text_precedes("tau"@, "zeta3"@));
}

} // verus!

pub use self::ArithmaConstantConfig as ArithmosConstantConfig;
pub use self::ArithmaConstants as ArithmosConstants;
