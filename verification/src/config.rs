//! Kernel runtime configuration.
//!
//! Parses the kernel command line (supplied by the bootloader) to extract
//! configuration parameters such as the log verbosity level.
use vstd::prelude::*;

use crate::log::level::Level;

verus! {

/// The kernel's configuration.
#[derive(Debug)]
pub struct Config {
    pub log_level: Level,
}

impl Default for Config {
    /// The configuration without command line: informational logging.
    fn default() -> (r: Self)
        ensures
            r.log_level == Level::Info,
    {
        Self { log_level: Level::Info }
    }
}

impl Config {
    /// Sets the level below which log messages are dropped.
    pub fn set_log_level(&mut self, log_level: Level)
        ensures
            final(self).log_level == log_level,
    {
        self.log_level = log_level;
    }

    /// The configuration that the command line `cmdline` asks for: each
    /// whitespace-separated argument `log_level=debug`, `log_level=info`,
    /// `log_level=warn` or `log_level=error` sets the log level, the last
    /// one winning; other arguments are ignored.
    pub fn from_cmdline(cmdline: &str) -> (r: Config)
        ensures
            r.log_level == cmdline_level(cmdline@),
    {
        let mut config = Config::default();
        if cmdline.is_empty() {
            return config;
        }
        let ghost cs = cmdline@;
        // The argument being read: its first characters and its length,
        // counted up to one past the longest argument that sets a level.
        let mut buf: [char; 15] = ['\0'; 15];
        let mut len: usize = 0;
        let ghost mut current: Seq<char> = Seq::empty();
        for c in it: cmdline.chars()
            invariant
                it.seq() == cs,
                token_state(cs.take(it.index() as int), current, config.log_level),
                prefix_held(buf@, len, current),
        {
            let ghost p = cs.take(it.index() as int);
            let ghost q = p.push(c);
            proof {
                assert(cs.take(it.index() + 1) =~= q);
                assert(q.drop_last() =~= p);
                assert(q.last() == c);
            }
            if is_whitespace(c) {
                if len > 0 {
                    proof {
                        lemma_open_tokens(p);
                    }
                    if let Some(level) = held_level(&buf, len, Ghost(current)) {
                        config.set_log_level(level);
                    }
                    len = 0;
                    proof {
                        current = Seq::empty();
                        assert(tokens(q) == tokens(p));
                    }
                } else {
                    proof {
                        assert(tokens(q) == tokens(p));
                    }
                }
            } else {
                proof {
                    if open(p) {
                        lemma_open_tokens(p);
                    }
                }
                if len < 15 {
                    buf[len] = c;
                }
                if len <= 15 {
                    len = len + 1;
                }
                proof {
                    current = current.push(c);
                    assert(open(q));
                    if open(p) {
                        assert(tokens(q) == tokens(p).drop_last().push(tokens(p).last().push(c)));
                        assert(tokens(q).drop_last() =~= tokens(p).drop_last());
                    } else {
                        assert(tokens(q) == tokens(p).push(seq![c]));
                        assert(tokens(q).drop_last() =~= tokens(p));
                        assert(current =~= seq![c]);
                    }
                    assert forall|i: int| 0 <= i < held_len(len) implies #[trigger] buf@[i] == current[i] by {
                        if i < current.len() - 1 {
                            assert(current[i] == current.drop_last()[i]);
                        }
                    }
                }
            }
        }
        proof {
            assert(cs.take(cs.len() as int) =~= cs);
        }
        if len > 0 {
            proof {
                lemma_open_tokens(cs);
            }
            if let Some(level) = held_level(&buf, len, Ghost(current)) {
                config.set_log_level(level);
            }
        }
        config
    }
}

/// Number of characters of an argument that are kept: all of them up to
/// the length of the longest argument that sets a level.
pub open spec fn held_len(len: usize) -> int {
    if len < 15 {
        len as int
    } else {
        15
    }
}

/// `buf` and `len` hold the argument `current`: its length, counted up to
/// 16, and its first characters.
pub open spec fn prefix_held(buf: Seq<char>, len: usize, current: Seq<char>) -> bool {
    &&& buf.len() == 15
    &&& len <= 16
    &&& len == (if current.len() <= 16 { current.len() } else { 16 })
    &&& forall|i: int| 0 <= i < held_len(len) ==> #[trigger] buf[i] == current[i]
}

/// The level that the argument held in `buf` and `len` sets.
fn held_level(buf: &[char; 15], len: usize, Ghost(current): Ghost<Seq<char>>) -> (r: Option<
    Level,
>)
    requires
        prefix_held(buf@, len, current),
    ensures
        r == spec_token_level(current),
{
    if len > 15 {
        proof {
            let n = log_level_key().len() as int;
            if current.len() >= n && current.subrange(0, n) == log_level_key() {
                assert(current.subrange(n, current.len() as int).len() > 5);
            }
        }
        return None;
    }
    let t = buf.as_slice();
    let held = &t[0..len];
    proof {
        assert(held@ =~= current);
    }
    token_level(held)
}

/// Whether `c` has the Unicode `White_Space` property, which separates the
/// arguments of the command line.
pub open spec fn spec_is_whitespace(c: char) -> bool {
    let u = c as u32;
    ||| 0x09 <= u <= 0x0D
    ||| u == 0x20
    ||| u == 0x85
    ||| u == 0xA0
    ||| u == 0x1680
    ||| 0x2000 <= u <= 0x200A
    ||| u == 0x2028
    ||| u == 0x2029
    ||| u == 0x202F
    ||| u == 0x205F
    ||| u == 0x3000
}

/// Whether `c` has the Unicode `White_Space` property.
pub fn is_whitespace(c: char) -> (r: bool)
    ensures
        r == spec_is_whitespace(c),
{
    let u = c as u32;
    (0x09 <= u && u <= 0x0D) || u == 0x20 || u == 0x85 || u == 0xA0 || u == 0x1680 || (0x2000 <= u
        && u <= 0x200A) || u == 0x2028 || u == 0x2029 || u == 0x202F || u == 0x205F || u
        == 0x3000
}

/// `s` ends inside an argument.
pub open spec fn open(s: Seq<char>) -> bool {
    s.len() > 0 && !spec_is_whitespace(s.last())
}

/// The arguments of `s`: its maximal runs of non-whitespace characters.
pub open spec fn tokens(s: Seq<char>) -> Seq<Seq<char>>
    decreases s.len(),
{
    if s.len() == 0 {
        Seq::empty()
    } else {
        let before = tokens(s.drop_last());
        let c = s.last();
        if spec_is_whitespace(c) {
            before
        } else if open(s.drop_last()) {
            before.drop_last().push(before.last().push(c))
        } else {
            before.push(seq![c])
        }
    }
}

/// The key of the log level argument, `log_level=`.
pub open spec fn log_level_key() -> Seq<char> {
    seq!['l', 'o', 'g', '_', 'l', 'e', 'v', 'e', 'l', '=']
}

/// The level that a value of the log level argument names, if it names one.
pub open spec fn level_named(v: Seq<char>) -> Option<Level> {
    if v == seq!['d', 'e', 'b', 'u', 'g'] {
        Some(Level::Debug)
    } else if v == seq!['i', 'n', 'f', 'o'] {
        Some(Level::Info)
    } else if v == seq!['w', 'a', 'r', 'n'] {
        Some(Level::Warn)
    } else if v == seq!['e', 'r', 'r', 'o', 'r'] {
        Some(Level::Error)
    } else {
        None
    }
}

/// The level that the argument `t` sets, if it sets one.
pub open spec fn spec_token_level(t: Seq<char>) -> Option<Level> {
    let n = log_level_key().len() as int;
    if t.len() >= n && t.subrange(0, n) == log_level_key() {
        level_named(t.subrange(n, t.len() as int))
    } else {
        None
    }
}

/// The level that the last level-setting argument of `ts` sets, informational
/// logging when none sets one.
pub open spec fn level_from(ts: Seq<Seq<char>>) -> Level
    decreases ts.len(),
{
    if ts.len() == 0 {
        Level::Info
    } else {
        match spec_token_level(ts.last()) {
            Some(l) => l,
            None => level_from(ts.drop_last()),
        }
    }
}

/// The log level that the command line `s` asks for.
pub open spec fn cmdline_level(s: Seq<char>) -> Level {
    level_from(tokens(s))
}

/// The parser's state after the characters `p`: the argument being read
/// and the level that the arguments before it set.
pub open spec fn token_state(p: Seq<char>, current: Seq<char>, level: Level) -> bool {
    if open(p) {
        &&& tokens(p).len() > 0
        &&& current == tokens(p).last()
        &&& current.len() > 0
        &&& level == level_from(tokens(p).drop_last())
    } else {
        &&& current.len() == 0
        &&& level == level_from(tokens(p))
    }
}

proof fn lemma_open_tokens(p: Seq<char>)
    requires
        open(p),
    ensures
        tokens(p).len() > 0,
        tokens(p).last().len() > 0,
    decreases p.len(),
{
    if open(p.drop_last()) {
        lemma_open_tokens(p.drop_last());
    }
}

/// The argument `t` is a whole argument: non-empty and without whitespace.
pub open spec fn is_argument(t: Seq<char>) -> bool {
    t.len() > 0 && forall|i: int| 0 <= i < t.len() ==> !spec_is_whitespace(#[trigger] t[i])
}

proof fn lemma_tokens_append(s: Seq<char>, t: Seq<char>, k: int)
    requires
        is_argument(t),
        1 <= k <= t.len(),
    ensures
        tokens(s + seq![' '] + t.subrange(0, k)) == tokens(s).push(t.subrange(0, k)),
    decreases k,
{
    let sp = s + seq![' '];
    assert(sp.drop_last() =~= s);
    assert(tokens(sp) == tokens(s));
    let u = sp + t.subrange(0, k);
    assert(u.drop_last() =~= sp + t.subrange(0, k - 1));
    assert(u.last() == t[k - 1]);
    if k == 1 {
        assert(sp + t.subrange(0, 0) =~= sp);
        assert(!open(sp));
        assert(seq![t[0]] =~= t.subrange(0, 1));
    } else {
        lemma_tokens_append(s, t, k - 1);
        assert(t.subrange(0, k - 1).last() == t[k - 2]);
        assert(open(u.drop_last()));
        assert(tokens(s).push(t.subrange(0, k - 1)).drop_last() =~= tokens(s));
        assert(t.subrange(0, k - 1).push(t[k - 1]) =~= t.subrange(0, k));
    }
}

/// The last log level argument wins: appending `log_level=<level>` to a
/// command line sets that level, whatever came before.
pub proof fn lemma_last_level_wins(s: Seq<char>, t: Seq<char>)
    requires
        is_argument(t),
        spec_token_level(t) is Some,
    ensures
        cmdline_level(s + seq![' '] + t) == spec_token_level(t)->0,
{
    lemma_tokens_append(s, t, t.len() as int);
    assert(t.subrange(0, t.len() as int) =~= t);
}

/// Arguments that set no log level leave the level as it was.
pub proof fn lemma_other_arguments_ignored(s: Seq<char>, t: Seq<char>)
    requires
        is_argument(t),
        spec_token_level(t) is None,
    ensures
        cmdline_level(s + seq![' '] + t) == cmdline_level(s),
{
    lemma_tokens_append(s, t, t.len() as int);
    assert(t.subrange(0, t.len() as int) =~= t);
    assert(tokens(s).push(t).drop_last() =~= tokens(s));
}

proof fn lemma_named_argument(s: Seq<char>, t: Seq<char>, name: Seq<char>)
    requires
        t == log_level_key() + name,
        name.len() > 0,
        forall|i: int| 0 <= i < name.len() ==> 'a' <= #[trigger] name[i] <= 'z',
    ensures
        cmdline_level(s + seq![' '] + t) == level_named(name)->0 || level_named(name) is None,
{
    assert forall|i: int| 0 <= i < t.len() implies !spec_is_whitespace(#[trigger] t[i]) by {
        if i < 10 {
            assert(t[i] == log_level_key()[i]);
        } else {
            assert(t[i] == name[i - 10]);
        }
    }
    assert(t.subrange(0, 10) =~= log_level_key());
    assert(t.subrange(10, t.len() as int) =~= name);
    if level_named(name) is Some {
        lemma_last_level_wins(s, t);
    }
}

/// The four level names select their levels: whatever came before,
/// `log_level=debug`, `log_level=info`, `log_level=warn` and
/// `log_level=error` set the debug, info, warning and error levels.
pub proof fn lemma_level_names(s: Seq<char>)
    ensures
        cmdline_level(s + seq![' '] + seq!['l', 'o', 'g', '_', 'l', 'e', 'v', 'e', 'l', '=', 'd', 'e', 'b', 'u', 'g']) == Level::Debug,
        cmdline_level(s + seq![' '] + seq!['l', 'o', 'g', '_', 'l', 'e', 'v', 'e', 'l', '=', 'i', 'n', 'f', 'o']) == Level::Info,
        cmdline_level(s + seq![' '] + seq!['l', 'o', 'g', '_', 'l', 'e', 'v', 'e', 'l', '=', 'w', 'a', 'r', 'n']) == Level::Warn,
        cmdline_level(s + seq![' '] + seq!['l', 'o', 'g', '_', 'l', 'e', 'v', 'e', 'l', '=', 'e', 'r', 'r', 'o', 'r']) == Level::Error,
{
    assert(seq!['l', 'o', 'g', '_', 'l', 'e', 'v', 'e', 'l', '=', 'd', 'e', 'b', 'u', 'g'] =~= log_level_key() + seq!['d', 'e', 'b', 'u', 'g']);
    lemma_named_argument(s, seq!['l', 'o', 'g', '_', 'l', 'e', 'v', 'e', 'l', '=', 'd', 'e', 'b', 'u', 'g'], seq!['d', 'e', 'b', 'u', 'g']);
    assert(seq!['l', 'o', 'g', '_', 'l', 'e', 'v', 'e', 'l', '=', 'i', 'n', 'f', 'o'] =~= log_level_key() + seq!['i', 'n', 'f', 'o']);
    lemma_named_argument(s, seq!['l', 'o', 'g', '_', 'l', 'e', 'v', 'e', 'l', '=', 'i', 'n', 'f', 'o'], seq!['i', 'n', 'f', 'o']);
    assert(seq!['l', 'o', 'g', '_', 'l', 'e', 'v', 'e', 'l', '=', 'w', 'a', 'r', 'n'] =~= log_level_key() + seq!['w', 'a', 'r', 'n']);
    lemma_named_argument(s, seq!['l', 'o', 'g', '_', 'l', 'e', 'v', 'e', 'l', '=', 'w', 'a', 'r', 'n'], seq!['w', 'a', 'r', 'n']);
    assert(seq!['l', 'o', 'g', '_', 'l', 'e', 'v', 'e', 'l', '=', 'e', 'r', 'r', 'o', 'r'] =~= log_level_key() + seq!['e', 'r', 'r', 'o', 'r']);
    lemma_named_argument(s, seq!['l', 'o', 'g', '_', 'l', 'e', 'v', 'e', 'l', '=', 'e', 'r', 'r', 'o', 'r'], seq!['e', 'r', 'r', 'o', 'r']);
}

/// Whether `t[start..]` begins with `word`.
fn has_at(t: &[char], start: usize, word: &[char]) -> (r: bool)
    requires
        start <= t@.len(),
    ensures
        r == (start + word@.len() <= t@.len() && t@.subrange(
            start as int,
            start + word@.len(),
        ) == word@),
{
    if word.len() > t.len() - start {
        return false;
    }
    let mut i: usize = 0;
    while i < word.len()
        invariant
            start + word@.len() <= t@.len(),
            t@.len() <= usize::MAX,
            i <= word@.len(),
            forall|j: int| 0 <= j < i ==> t@[start + j] == word@[j],
        decreases word@.len() - i,
    {
        if t[start + i] != word[i] {
            proof {
                assert(t@.subrange(start as int, start + word@.len())[i as int] != word@[i as int]);
            }
            return false;
        }
        i = i + 1;
    }
    proof {
        assert(t@.subrange(start as int, start + word@.len()) =~= word@);
    }
    true
}

/// Whether `t[start..]` is exactly `word`.
fn is_at(t: &[char], start: usize, word: &[char]) -> (r: bool)
    requires
        start <= t@.len(),
    ensures
        r == (t@.subrange(start as int, t@.len() as int) == word@),
{
    if t.len() - start != word.len() {
        proof {
            assert(t@.subrange(start as int, t@.len() as int).len() != word@.len());
        }
        return false;
    }
    let r = has_at(t, start, word);
    proof {
        assert(start + word@.len() == t@.len());
    }
    r
}

/// The level that the argument `t` sets, if it sets one.
pub fn token_level(t: &[char]) -> (r: Option<Level>)
    ensures
        r == spec_token_level(t@),
{
    let key = ['l', 'o', 'g', '_', 'l', 'e', 'v', 'e', 'l', '='];
    proof {
        assert(key@ =~= log_level_key());
    }
    if !has_at(t, 0, &key) {
        proof {
            if t@.len() >= 10 {
                assert(t@.subrange(0, 10) != log_level_key());
            }
        }
        return None;
    }
    let debug = ['d', 'e', 'b', 'u', 'g'];
    let info = ['i', 'n', 'f', 'o'];
    let warn = ['w', 'a', 'r', 'n'];
    let error = ['e', 'r', 'r', 'o', 'r'];
    proof {
        assert(debug@ =~= seq!['d', 'e', 'b', 'u', 'g']);
        assert(info@ =~= seq!['i', 'n', 'f', 'o']);
        assert(warn@ =~= seq!['w', 'a', 'r', 'n']);
        assert(error@ =~= seq!['e', 'r', 'r', 'o', 'r']);
    }
    if is_at(t, 10, &debug) {
        Some(Level::Debug)
    } else if is_at(t, 10, &info) {
        Some(Level::Info)
    } else if is_at(t, 10, &warn) {
        Some(Level::Warn)
    } else if is_at(t, 10, &error) {
        Some(Level::Error)
    } else {
        None
    }
}

} // verus!
