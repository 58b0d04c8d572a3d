//! Periodic shell commands: which ones the configuration declares, their
//! schedule in timer ticks, and which of them are due at each tick.

use vstd::prelude::*;
use vstd::string::*;
use crate::config::{entry_views, lookup, lookup_entry, opt_view, concat3};
use crate::text::{chars_of, has_prefix, has_suffix, starts_with, ends_with, slice_chars, string_of};

verus! {

// ---------------------------------------------------------------------------
// Ordering of names
// ---------------------------------------------------------------------------

/// Lexicographic order of texts by code point, which is the order of
/// `String` (byte-wise UTF-8 comparison orders code points the same way).
pub open spec fn text_lt(a: Seq<char>, b: Seq<char>) -> bool
    decreases a.len(),
{
    if a.len() == 0 {
        b.len() > 0
    } else if b.len() == 0 {
        false
    } else if a[0] != b[0] {
        (a[0] as int) < (b[0] as int)
    } else {
        text_lt(a.drop_first(), b.drop_first())
    }
}

pub proof fn lemma_text_lt_irreflexive(a: Seq<char>)
    ensures
        !text_lt(a, a),
    decreases a.len(),
{
    if a.len() > 0 {
        lemma_text_lt_irreflexive(a.drop_first());
    }
}

pub proof fn lemma_text_lt_transitive(a: Seq<char>, b: Seq<char>, c: Seq<char>)
    requires
        text_lt(a, b),
        text_lt(b, c),
    ensures
        text_lt(a, c),
    decreases a.len(),
{
    if a.len() > 0 && b.len() > 0 && c.len() > 0 && a[0] == b[0] && b[0] == c[0] {
        lemma_text_lt_transitive(a.drop_first(), b.drop_first(), c.drop_first());
    }
}

pub proof fn lemma_text_lt_total(a: Seq<char>, b: Seq<char>)
    requires
        a != b,
    ensures
        text_lt(a, b) || text_lt(b, a),
    decreases a.len(),
{
    if a.len() > 0 && b.len() > 0 && a[0] == b[0] {
        if a.drop_first() == b.drop_first() {
            assert(a =~= seq![a[0]] + a.drop_first());
            assert(b =~= seq![b[0]] + b.drop_first());
        }
        lemma_text_lt_total(a.drop_first(), b.drop_first());
    } else if a.len() == 0 && b.len() == 0 {
        assert(a =~= b);
    }
}

/// Whether `a` sorts before `b`.
pub fn text_less(a: &[char], b: &[char]) -> (r: bool)
    ensures
        r == text_lt(a@, b@),
{
    let mut i: usize = 0;
    assert(a@.skip(0) =~= a@);
    assert(b@.skip(0) =~= b@);
    while i < a.len() && i < b.len() && a[i] == b[i]
        invariant
            i <= a@.len(),
            i <= b@.len(),
            text_lt(a@, b@) == text_lt(a@.skip(i as int), b@.skip(i as int)),
        decreases a@.len() - i,
    {
        assert(a@.skip(i as int).drop_first() =~= a@.skip(i + 1));
        assert(b@.skip(i as int).drop_first() =~= b@.skip(i + 1));
        i = i + 1;
    }
    if i == a.len() {
        i < b.len()
    } else if i == b.len() {
        false
    } else {
        assert(a@.skip(i as int)[0] == a@[i as int]);
        assert(b@.skip(i as int)[0] == b@[i as int]);
        a[i] < b[i]
    }
}

/// Whether the texts are in strictly increasing order.
pub open spec fn strictly_sorted(v: Seq<Seq<char>>) -> bool {
    forall|i: int, j: int| 0 <= i < j < v.len() ==> text_lt(#[trigger] v[i], #[trigger] v[j])
}

// ---------------------------------------------------------------------------
// Commands declared by the configuration
// ---------------------------------------------------------------------------

/// The command name that a configuration key `command_NAME_command`
/// declares.
pub open spec fn command_name_of(key: Seq<char>) -> Option<Seq<char>> {
    if has_prefix(key, "command_"@) && has_suffix(key.skip("command_"@.len() as int), "_command"@) {
        Some(key.subrange("command_"@.len() as int, key.len() - "_command"@.len()))
    } else {
        None
    }
}

/// Whether some entry declares the command `n`.
pub open spec fn declares(e: Seq<(Seq<char>, Seq<char>)>, n: Seq<char>) -> bool {
    exists|k: int| 0 <= k < e.len() && command_name_of(#[trigger] e[k].0) == Some(n)
}

/// The key of a command's text.
pub open spec fn command_key(n: Seq<char>) -> Seq<char> {
    "command_"@ + n + "_command"@
}

/// The key of a command's interval.
pub open spec fn interval_key(n: Seq<char>) -> Seq<char> {
    "command_"@ + n + "_interval"@
}

/// A declared command: its name, its shell text and its interval text.
#[derive(Debug)]
pub struct CommandRequest {
    pub name: String,
    pub command: String,
    pub interval: Option<String>,
}

fn command_name_exec(key: &[char]) -> (r: Option<Vec<char>>)
    ensures
        r matches Some(n) ==> command_name_of(key@) == Some(n@),
        r is None ==> command_name_of(key@) is None,
{
    proof {
        reveal_strlit("command_");
        reveal_strlit("_command");
    }
    if starts_with(key, "command_") {
        let rest = slice_chars(key, 8, key.len());
        assert(rest@ =~= key@.skip(8));
        if ends_with(&rest, "_command") {
            let n = slice_chars(key, 8, key.len() - 8);
            return Some(n);
        }
    }
    None
}

/// Inserts `x` into a strictly sorted list of names, unless present.
fn insert_name(names: &mut Vec<Vec<char>>, x: Vec<char>)
    requires
        strictly_sorted(old(names)@.map_values(|v: Vec<char>| v@)),
    ensures
        strictly_sorted(final(names)@.map_values(|v: Vec<char>| v@)),
        final(names)@.map_values(|v: Vec<char>| v@).to_set() == old(names)@.map_values(
            |v: Vec<char>| v@,
        ).to_set().insert(x@),
{
    let ghost s = old(names)@.map_values(|v: Vec<char>| v@);
    let mut i: usize = 0;
    while i < names.len() && text_less(&names[i], &x)
        invariant
            i <= names@.len(),
            names@ == old(names)@,
            s == names@.map_values(|v: Vec<char>| v@),
            forall|k: int| 0 <= k < i ==> text_lt(#[trigger] s[k], x@),
        decreases names@.len() - i,
    {
        i = i + 1;
    }
    if i < names.len() && crate::text::same_chars(&names[i], &x) {
        assert(s.to_set() =~= s.to_set().insert(x@)) by {
            assert(s[i as int] == x@);
        }
        return;
    }
    proof {
        if i < s.len() {
            lemma_text_lt_total(s[i as int], x@);
        }
    }
    names.insert(i, x);
    let ghost t = names@.map_values(|v: Vec<char>| v@);
    assert(t =~= s.insert(i as int, x@));
    assert forall|a: int, b: int| 0 <= a < b < t.len() implies text_lt(#[trigger] t[a], #[trigger] t[b]) by {
        if b < i {
        } else if a < i && b == i {
        } else if a < i && b > i {
            assert(text_lt(t[a], x@));
            assert(text_lt(x@, t[b])) by {
                assert(t[b] == s[b - 1]);
                if b - 1 > i {
                    assert(text_lt(s[i as int], s[b - 1]));
                    lemma_text_lt_transitive(x@, s[i as int], s[b - 1]);
                }
            }
            lemma_text_lt_transitive(t[a], x@, t[b]);
        } else if a == i {
            assert(t[b] == s[b - 1]);
            if b - 1 > i {
                lemma_text_lt_transitive(x@, s[i as int], s[b - 1]);
            }
        } else {
            assert(t[a] == s[a - 1] && t[b] == s[b - 1]);
        }
    }
    assert(t.to_set() =~= s.to_set().insert(x@)) by {
        assert forall|y: Seq<char>| t.to_set().contains(y) implies s.to_set().insert(x@).contains(y) by {
            let k = choose|k: int| 0 <= k < t.len() && t[k] == y;
            if k < i {
                assert(s[k] == y);
            } else if k > i {
                assert(s[k - 1] == y);
            }
        }
        assert forall|y: Seq<char>| s.to_set().insert(x@).contains(y) implies t.to_set().contains(y) by {
            if y == x@ {
                assert(t[i as int] == y);
            } else {
                let k = choose|k: int| 0 <= k < s.len() && s[k] == y;
                if k < i {
                    assert(t[k] == y);
                } else {
                    assert(t[k + 1] == y);
                }
            }
        }
    }
}

} // verus!

verus! {

proof fn lemma_key_of_name(key: Seq<char>, n: Seq<char>)
    requires
        command_name_of(key) == Some(n),
    ensures
        key == command_key(n),
{
    reveal_strlit("command_");
    reveal_strlit("_command");
    assert(key.skip(8).len() >= 8);
    assert(key =~= key.take(8) + key.subrange(8, key.len() - 8) + key.skip(key.len() - 8));
    assert(key.skip(8).skip(key.skip(8).len() - 8) =~= key.skip(key.len() - 8));
}

proof fn lemma_lookup_some(e: Seq<(Seq<char>, Seq<char>)>, key: Seq<char>, k: int)
    requires
        0 <= k < e.len(),
        e[k].0 == key,
    ensures
        lookup(e, key) is Some,
    decreases e.len(),
{
    if e[0].0 != key {
        lemma_lookup_some(e.drop_first(), key, k - 1);
    }
}

/// The views of a list of names.
pub open spec fn name_views(v: Seq<Vec<char>>) -> Seq<Seq<char>> {
    v.map_values(|x: Vec<char>| x@)
}

/// The commands that the configuration declares, in increasing order of
/// name, each with its text and its interval text.
pub fn command_requests(entries: &Vec<(String, String)>) -> (r: Vec<CommandRequest>)
    ensures
        strictly_sorted(r@.map_values(|q: CommandRequest| q.name@)),
        forall|n: Seq<char>|
            declares(entry_views(entries@), n) <==> r@.map_values(|q: CommandRequest| q.name@).contains(n),
        forall|i: int|
            0 <= i < r@.len() ==> lookup(entry_views(entries@), command_key(#[trigger] r@[i].name@))
                == Some(r@[i].command@) && opt_view(r@[i].interval) == lookup(
                entry_views(entries@),
                interval_key(r@[i].name@),
            ),
{
    let ghost e = entry_views(entries@);
    let mut names: Vec<Vec<char>> = Vec::new();
    let mut i: usize = 0;
    while i < entries.len()
        invariant
            i <= entries@.len(),
            e == entry_views(entries@),
            strictly_sorted(name_views(names@)),
            forall|n: Seq<char>|
                name_views(names@).to_set().contains(n) <==> exists|k: int|
                    0 <= k < i && command_name_of(#[trigger] e[k].0) == Some(n),
        decreases entries@.len() - i,
    {
        let key = chars_of(entries[i].0.as_str());
        assert(e[i as int].0 == key@);
        let ghost before = name_views(names@).to_set();
        match command_name_exec(&key) {
            Some(n) => {
                insert_name(&mut names, n);
            },
            None => {},
        }
        assert forall|m: Seq<char>|
            name_views(names@).to_set().contains(m) <==> exists|k: int|
                0 <= k < i + 1 && command_name_of(#[trigger] e[k].0) == Some(m) by {
            if name_views(names@).to_set().contains(m) && !before.contains(m) {
                assert(command_name_of(e[i as int].0) == Some(m));
            }
            if exists|k: int| 0 <= k < i + 1 && command_name_of(#[trigger] e[k].0) == Some(m) {
                let k = choose|k: int| 0 <= k < i + 1 && command_name_of(#[trigger] e[k].0) == Some(m);
                if k < i {
                    assert(before.contains(m));
                }
            }
        }
        i = i + 1;
    }
    let mut out: Vec<CommandRequest> = Vec::new();
    let mut j: usize = 0;
    while j < names.len()
        invariant
            j <= names@.len(),
            e == entry_views(entries@),
            strictly_sorted(name_views(names@)),
            forall|n: Seq<char>|
                name_views(names@).to_set().contains(n) <==> declares(e, n),
            out@.len() == j,
            forall|k: int| 0 <= k < j ==> #[trigger] out@[k].name@ == names@[k]@,
            forall|k: int|
                0 <= k < j ==> lookup(e, command_key(#[trigger] out@[k].name@)) == Some(out@[k].command@)
                    && opt_view(out@[k].interval) == lookup(e, interval_key(out@[k].name@)),
        decreases names@.len() - j,
    {
        let name = string_of(&names[j]);
        proof {
            assert(name_views(names@).to_set().contains(names@[j as int]@)) by {
                assert(name_views(names@)[j as int] == names@[j as int]@);
            }
            assert(declares(e, names@[j as int]@));
            let k = choose|k: int| 0 <= k < e.len() && command_name_of(#[trigger] e[k].0) == Some(names@[j as int]@);
            lemma_key_of_name(e[k].0, names@[j as int]@);
            lemma_lookup_some(e, command_key(names@[j as int]@), k);
        }
        let ck = concat3("command_", name.as_str(), "_command");
        let ik = concat3("command_", name.as_str(), "_interval");
        let command = lookup_entry(entries, ck.as_str()).unwrap();
        let interval = lookup_entry(entries, ik.as_str());
        out.push(CommandRequest { name, command, interval });
        j = j + 1;
    }
    assert(out@.map_values(|q: CommandRequest| q.name@) =~= name_views(names@));
    assert forall|n: Seq<char>|
        declares(e, n) <==> out@.map_values(|q: CommandRequest| q.name@).contains(n) by {
        if out@.map_values(|q: CommandRequest| q.name@).contains(n) {
            assert(name_views(names@).to_set().contains(n));
        }
        if declares(e, n) {
            assert(name_views(names@).to_set().contains(n));
        }
    }
    out
}

} // verus!

verus! {

// ---------------------------------------------------------------------------
// Schedules
// ---------------------------------------------------------------------------

/// How often a command runs, in timer ticks. `Never` stands for an interval
/// that is not a number, which never becomes due.
#[derive(Debug, Clone, Copy, PartialEq, Eq, Structural)]
pub enum TickPeriod {
    Every(u64),
    Never,
}

/// The period of a command whose interval is missing, or is not a number of
/// seconds: every 30 ticks of one second.
pub fn default_period() -> (p: TickPeriod)
    ensures
        p == TickPeriod::Every(30),
{
    TickPeriod::Every(30)
}

/// A scheduled command.
#[derive(Debug)]
pub struct CommandDef {
    pub name: String,
    pub command: String,
    pub period: TickPeriod,
    /// Ticks since the last run.
    pub elapsed: u64,
}

/// A command as a value: name, text, period, elapsed ticks.
pub type CmdView = (Seq<char>, Seq<char>, TickPeriod, u64);

impl View for CommandDef {
    type V = CmdView;

    open spec fn view(&self) -> CmdView {
        (self.name@, self.command@, self.period, self.elapsed)
    }
}

/// The views of a command list.
pub open spec fn cmd_views(v: Seq<CommandDef>) -> Seq<CmdView> {
    v.map_values(|c: CommandDef| c@)
}

/// The names of a command list.
pub open spec fn cmd_names(v: Seq<CmdView>) -> Seq<Seq<char>> {
    v.map_values(|c: CmdView| c.0)
}

/// A new command starts with its period already elapsed, so that the first
/// tick runs it.
pub open spec fn new_command(name: Seq<char>, command: Seq<char>, period: TickPeriod) -> CmdView {
    (name, command, period, match period {
        TickPeriod::Every(p) => p,
        TickPeriod::Never => 0,
    })
}

/// A name-sorted command list with `c` inserted, replacing the command of
/// the same name.
pub open spec fn insert_command(v: Seq<CmdView>, c: CmdView) -> Seq<CmdView>
    decreases v.len(),
{
    if v.len() == 0 {
        seq![c]
    } else if v[0].0 == c.0 {
        seq![c] + v.drop_first()
    } else if text_lt(c.0, v[0].0) {
        seq![c] + v
    } else {
        seq![v[0]] + insert_command(v.drop_first(), c)
    }
}

proof fn lemma_insert_command_prefix(v: Seq<CmdView>, c: CmdView, i: int)
    requires
        0 <= i <= v.len(),
        forall|k: int| 0 <= k < i ==> text_lt(#[trigger] v[k].0, c.0),
    ensures
        insert_command(v, c) == v.take(i) + insert_command(v.skip(i), c),
    decreases i,
{
    if i > 0 {
        lemma_text_lt_irreflexive(c.0);
        assert(v[0].0 != c.0);
        if text_lt(c.0, v[0].0) {
            lemma_text_lt_transitive(c.0, v[0].0, c.0);
        }
        lemma_insert_command_prefix(v.drop_first(), c, i - 1);
        assert(v.drop_first().take(i - 1) =~= v.take(i).drop_first());
        assert(v.drop_first().skip(i - 1) =~= v.skip(i));
        assert(v.take(i) =~= seq![v[0]] + v.take(i).drop_first());
    } else {
        assert(v.skip(0) =~= v);
    }
}

proof fn lemma_insert_command_sorted(v: Seq<CmdView>, c: CmdView)
    requires
        strictly_sorted(cmd_names(v)),
    ensures
        strictly_sorted(cmd_names(insert_command(v, c))),
        forall|n: Seq<char>| #[trigger] cmd_names(insert_command(v, c)).contains(n) <==> (n == c.0 || cmd_names(v).contains(n)),
    decreases v.len(),
{
    let r = insert_command(v, c);
    if v.len() == 0 {
        assert(cmd_names(r) =~= seq![c.0]);
        assert forall|n: Seq<char>| #[trigger] cmd_names(r).contains(n) <==> (n == c.0 || cmd_names(v).contains(n)) by {
            if n == c.0 {
                assert(cmd_names(r)[0] == n);
            }
        }
    } else if v[0].0 == c.0 {
        assert(cmd_names(r) =~= cmd_names(v).update(0, c.0));
        assert forall|n: Seq<char>| cmd_names(r).contains(n) <==> (n == c.0 || cmd_names(v).contains(n)) by {
            if cmd_names(v).contains(n) {
                let k = choose|k: int| 0 <= k < cmd_names(v).len() && cmd_names(v)[k] == n;
                assert(cmd_names(r)[k] == n);
            }
            if n == c.0 {
                assert(cmd_names(r)[0] == n);
            }
            if cmd_names(r).contains(n) {
                let k = choose|k: int| 0 <= k < cmd_names(r).len() && cmd_names(r)[k] == n;
                assert(cmd_names(v)[k] == n);
            }
        }
    } else if text_lt(c.0, v[0].0) {
        assert(cmd_names(r) =~= seq![c.0] + cmd_names(v));
        assert forall|a: int, b: int| 0 <= a < b < cmd_names(r).len() implies text_lt(
            #[trigger] cmd_names(r)[a],
            #[trigger] cmd_names(r)[b],
        ) by {
            if a == 0 && b > 1 {
                assert(text_lt(cmd_names(v)[0], cmd_names(v)[b - 1]));
                lemma_text_lt_transitive(c.0, v[0].0, v[b - 1].0);
            } else if a > 0 {
                assert(text_lt(cmd_names(v)[a - 1], cmd_names(v)[b - 1]));
            }
        }
        assert forall|n: Seq<char>| cmd_names(r).contains(n) <==> (n == c.0 || cmd_names(v).contains(n)) by {
            if cmd_names(v).contains(n) {
                let k = choose|k: int| 0 <= k < cmd_names(v).len() && cmd_names(v)[k] == n;
                assert(cmd_names(r)[k + 1] == n);
            }
            if n == c.0 {
                assert(cmd_names(r)[0] == n);
            }
            if cmd_names(r).contains(n) {
                let k = choose|k: int| 0 <= k < cmd_names(r).len() && cmd_names(r)[k] == n;
                if k > 0 {
                    assert(cmd_names(v)[k - 1] == n);
                }
            }
        }
    } else {
        let t = v.drop_first();
        assert(strictly_sorted(cmd_names(t))) by {
            assert forall|a: int, b: int| 0 <= a < b < cmd_names(t).len() implies text_lt(
                #[trigger] cmd_names(t)[a],
                #[trigger] cmd_names(t)[b],
            ) by {
                assert(cmd_names(t)[a] == cmd_names(v)[a + 1]);
                assert(cmd_names(t)[b] == cmd_names(v)[b + 1]);
            }
        }
        lemma_insert_command_sorted(t, c);
        lemma_text_lt_total(c.0, v[0].0);
        let rt = insert_command(t, c);
        assert(cmd_names(r) =~= seq![v[0].0] + cmd_names(rt));
        assert forall|a: int, b: int| 0 <= a < b < cmd_names(r).len() implies text_lt(
            #[trigger] cmd_names(r)[a],
            #[trigger] cmd_names(r)[b],
        ) by {
            if a == 0 {
                let n = cmd_names(rt)[b - 1];
                assert(cmd_names(rt)[b - 1] == n);
                assert(cmd_names(rt).contains(n));
                if n != c.0 {
                    assert(cmd_names(t).contains(n));
                    let k = choose|k: int| 0 <= k < cmd_names(t).len() && cmd_names(t)[k] == n;
                    assert(cmd_names(v)[k + 1] == n);
                    assert(text_lt(cmd_names(v)[0], cmd_names(v)[k + 1]));
                }
            } else {
                assert(cmd_names(r)[a] == cmd_names(rt)[a - 1]);
                assert(cmd_names(r)[b] == cmd_names(rt)[b - 1]);
            }
        }
        assert forall|n: Seq<char>| cmd_names(r).contains(n) <==> (n == c.0 || cmd_names(v).contains(n)) by {
            if cmd_names(v).contains(n) {
                let k = choose|k: int| 0 <= k < cmd_names(v).len() && cmd_names(v)[k] == n;
                if k == 0 {
                    assert(cmd_names(r)[0] == n);
                } else {
                    assert(cmd_names(t)[k - 1] == n);
                    assert(cmd_names(t).contains(n));
                    assert(cmd_names(rt).contains(n));
                    let m = choose|m: int| 0 <= m < cmd_names(rt).len() && cmd_names(rt)[m] == n;
                    assert(cmd_names(r)[m + 1] == n);
                }
            }
            if n == c.0 {
                assert(cmd_names(rt).contains(n));
                let m = choose|m: int| 0 <= m < cmd_names(rt).len() && cmd_names(rt)[m] == n;
                assert(cmd_names(r)[m + 1] == n);
            }
            if cmd_names(r).contains(n) {
                let k = choose|k: int| 0 <= k < cmd_names(r).len() && cmd_names(r)[k] == n;
                if k == 0 {
                    assert(cmd_names(v)[0] == n);
                } else {
                    assert(cmd_names(rt)[k - 1] == n);
                    assert(cmd_names(rt).contains(n));
                    if n != c.0 {
                        assert(cmd_names(t).contains(n));
                        let m = choose|m: int| 0 <= m < cmd_names(t).len() && cmd_names(t)[m] == n;
                        assert(cmd_names(v)[m + 1] == n);
                    }
                }
            }
        }
    }
}

fn name_before(c: &CommandDef, nv: &[char]) -> (b: bool)
    ensures
        b == text_lt(c.name@, nv@),
{
    let cv = chars_of(c.name.as_str());
    text_less(&cv, nv)
}

/// Adds a command to a name-sorted list (replacing one of the same name).
pub fn install_command(commands: &mut Vec<CommandDef>, name: String, command: String, period: TickPeriod)
    requires
        strictly_sorted(cmd_names(cmd_views(old(commands)@))),
    ensures
        cmd_views(final(commands)@) == insert_command(
            cmd_views(old(commands)@),
            new_command(name@, command@, period),
        ),
        strictly_sorted(cmd_names(cmd_views(final(commands)@))),
{
    let ghost v = cmd_views(commands@);
    let ghost c = new_command(name@, command@, period);
    let elapsed = match period {
        TickPeriod::Every(p) => p,
        TickPeriod::Never => 0,
    };
    let nv = chars_of(name.as_str());
    let mut i: usize = 0;
    while i < commands.len() && name_before(&commands[i], &nv)
        invariant
            i <= commands@.len(),
            commands@ == old(commands)@,
            v == cmd_views(commands@),
            nv@ == name@,
            c.0 == name@,
            forall|k: int| 0 <= k < i ==> text_lt(#[trigger] v[k].0, c.0),
        decreases commands@.len() - i,
    {
        i = i + 1;
    }
    proof {
        lemma_insert_command_prefix(v, c, i as int);
        lemma_insert_command_sorted(v, c);
    }
    let def = CommandDef { name, command, period, elapsed };
    if i < commands.len() {
        let cv = chars_of(commands[i].name.as_str());
        if crate::text::same_chars(&cv, &nv) {
            commands.set(i, def);
            assert(v.skip(i as int)[0] == v[i as int]);
            assert(cmd_views(commands@) =~= v.take(i as int) + insert_command(v.skip(i as int), c)) by {
                assert(v.skip(i as int).drop_first() =~= v.skip(i + 1));
            }
            return;
        }
        proof {
            lemma_text_lt_total(c.0, v[i as int].0);
        }
        assert(v.skip(i as int)[0] == v[i as int]);
    }
    assert(def@ == c);
    commands.insert(i, def);
    assert(i < v.len() ==> insert_command(v.skip(i as int), c) == seq![c] + v.skip(i as int));
    assert(i == v.len() ==> v.skip(i as int) =~= Seq::<CmdView>::empty());
    assert(cmd_views(commands@) =~= v.take(i as int) + insert_command(v.skip(i as int), c));
}

/// Whether a command is due at this tick.
pub open spec fn fires(c: CmdView) -> bool {
    match c.2 {
        TickPeriod::Every(p) => (if c.3 == u64::MAX { c.3 } else { (c.3 + 1) as u64 }) >= p,
        TickPeriod::Never => false,
    }
}

/// A command after one tick: its elapsed count goes up by one, and back to
/// zero when it runs.
pub open spec fn tick_one(c: CmdView) -> CmdView {
    match c.2 {
        TickPeriod::Every(p) => {
            let e = if c.3 == u64::MAX { c.3 } else { (c.3 + 1) as u64 };
            if e >= p { (c.0, c.1, c.2, 0) } else { (c.0, c.1, c.2, e) }
        },
        TickPeriod::Never => c,
    }
}

/// The (name, text) of the commands due at this tick, in list order.
pub open spec fn due_list(v: Seq<CmdView>) -> Seq<(Seq<char>, Seq<char>)>
    decreases v.len(),
{
    if v.len() == 0 {
        Seq::empty()
    } else {
        due_list(v.drop_last()) + (if fires(v.last()) {
            seq![(v.last().0, v.last().1)]
        } else {
            Seq::empty()
        })
    }
}

/// Advances every command by one tick and returns those that are due.
pub fn tick_commands(commands: &mut Vec<CommandDef>) -> (due: Vec<(String, String)>)
    ensures
        cmd_views(final(commands)@) == cmd_views(old(commands)@).map_values(|c: CmdView| tick_one(c)),
        due@.map_values(|d: (String, String)| (d.0@, d.1@)) == due_list(cmd_views(old(commands)@)),
{
    let ghost v = cmd_views(commands@);
    let mut due: Vec<(String, String)> = Vec::new();
    let mut i: usize = 0;
    assert(v.take(0) =~= Seq::<CmdView>::empty());
    while i < commands.len()
        invariant
            i <= commands@.len(),
            v.len() == commands@.len(),
            forall|k: int| i <= k < v.len() ==> #[trigger] commands@[k]@ == v[k],
            forall|k: int| 0 <= k < i ==> #[trigger] commands@[k]@ == tick_one(v[k]),
            due@.map_values(|d: (String, String)| (d.0@, d.1@)) == due_list(v.take(i as int)),
        decreases commands@.len() - i,
    {
        assert(commands@[i as int]@ == v[i as int]);
        assert(v.take(i + 1).drop_last() =~= v.take(i as int));
        assert(v.take(i + 1).last() == v[i as int]);
        let ghost before = due@.map_values(|d: (String, String)| (d.0@, d.1@));
        match commands[i].period {
            TickPeriod::Every(p) => {
                let e = commands[i].elapsed.saturating_add(1);
                let name = commands[i].name.clone();
                let command = commands[i].command.clone();
                let period = commands[i].period;
                if e >= p {
                    commands.set(i, CommandDef { name: name.clone(), command: command.clone(), period, elapsed: 0 });
                    due.push((name, command));
                    assert(due@.map_values(|d: (String, String)| (d.0@, d.1@)) =~= before.push((v[i as int].0, v[i as int].1)));
                } else {
                    commands.set(i, CommandDef { name, command, period, elapsed: e });
                    assert(due@.map_values(|d: (String, String)| (d.0@, d.1@)) =~= before);
                }
            },
            TickPeriod::Never => {
                assert(due@.map_values(|d: (String, String)| (d.0@, d.1@)) =~= before);
            },
        }
        i = i + 1;
    }
    assert(v.take(v.len() as int) =~= v);
    assert(cmd_views(commands@) =~= v.map_values(|c: CmdView| tick_one(c)));
    due
}

} // verus!

verus! {

/// A tick changes no command's name.
pub proof fn lemma_tick_keeps_names(v: Seq<CmdView>)
    ensures
        cmd_names(v.map_values(|c: CmdView| tick_one(c))) == cmd_names(v),
{
    assert(cmd_names(v.map_values(|c: CmdView| tick_one(c))) =~= cmd_names(v));
}

} // verus!

verus! {

/// `c` after `k` ticks.
pub open spec fn ticked(c: CmdView, k: nat) -> CmdView
    decreases k,
{
    if k == 0 {
        c
    } else {
        tick_one(ticked(c, (k - 1) as nat))
    }
}

proof fn lemma_ticked_counts(c0: CmdView, p: u64, k: nat)
    requires
        p >= 1,
        c0.2 == TickPeriod::Every(p),
        c0.3 == 0,
        k < p,
    ensures
        ticked(c0, k) == (c0.0, c0.1, c0.2, k as u64),
    decreases k,
{
    if k > 0 {
        lemma_ticked_counts(c0, p, (k - 1) as nat);
    }
}

/// A command that runs every `p` ticks runs at the first tick after it is
/// scheduled, and from then on exactly once every `p` ticks: after a run,
/// the next `p - 1` ticks do not run it, the `p`-th does, and the count
/// starts over. A command that is never due never runs.
pub proof fn law_command_period(name: Seq<char>, command: Seq<char>, p: u64)
    requires
        p >= 1,
    ensures
        fires(new_command(name, command, TickPeriod::Every(p))),
        tick_one(new_command(name, command, TickPeriod::Every(p))) == (name, command, TickPeriod::Every(p), 0u64),
        ({
            let c0 = (name, command, TickPeriod::Every(p), 0u64);
            &&& forall|k: nat| k + 1 < p ==> !#[trigger] fires(ticked(c0, k))
            &&& fires(ticked(c0, (p - 1) as nat))
            &&& ticked(c0, p as nat) == c0
        }),
        forall|k: nat| !#[trigger] fires(ticked(new_command(name, command, TickPeriod::Never), k)),
{
    let c0 = (name, command, TickPeriod::Every(p), 0u64);
    assert forall|k: nat| k + 1 < p implies !#[trigger] fires(ticked(c0, k)) by {
        lemma_ticked_counts(c0, p, k);
    }
    lemma_ticked_counts(c0, p, (p - 1) as nat);
    assert(ticked(c0, p as nat) == tick_one(ticked(c0, (p - 1) as nat)));
    let n = new_command(name, command, TickPeriod::Never);
    assert forall|k: nat| !#[trigger] fires(ticked(n, k)) by {
        lemma_ticked_never(n, k);
    }
}

proof fn lemma_ticked_never(c: CmdView, k: nat)
    requires
        c.2 == TickPeriod::Never,
    ensures
        ticked(c, k) == c,
    decreases k,
{
    if k > 0 {
        lemma_ticked_never(c, (k - 1) as nat);
    }
}

} // verus!
