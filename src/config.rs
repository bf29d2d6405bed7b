use vstd::prelude::*;

use crate::assemble::{text, PhaseOverride};
use crate::plan::texts;
use crate::session::{env_texts, opt_text, PlanConfig};
use crate::text::same_text;

verus! {

/// A configuration as the contracts see it.
pub struct ConfigModel {
    pub base_image: Option<Seq<char>>,
    pub start_command: Option<Seq<char>>,
    pub phases: Seq<(Seq<char>, Seq<Seq<char>>)>,
    pub env: Seq<(Seq<char>, Seq<char>)>,
    pub ports: Seq<u16>,
}

/// The model of a configuration.
pub open spec fn config_view(c: PlanConfig) -> ConfigModel {
    ConfigModel {
        base_image: opt_text(c.base_image),
        start_command: opt_text(c.start_command),
        phases: c.phases@.map_values(|o: PhaseOverride| (o.phase@, texts(o.commands@))),
        env: env_texts(c.env@),
        ports: c.ports@,
    }
}

/// The configuration with nothing set.
pub open spec fn empty_config() -> ConfigModel {
    ConfigModel {
        base_image: None,
        start_command: None,
        phases: Seq::empty(),
        env: Seq::empty(),
        ports: Seq::empty(),
    }
}

/// The value of a string of decimal digits.
pub open spec fn decimal(s: Seq<char>) -> int
    decreases s.len(),
{
    if s.len() == 0 {
        0
    } else {
        decimal(s.drop_last()) * 10 + (s.last() as int - '0' as int)
    }
}

/// `s` is a port number: one or more decimal digits with a value below 65536.
pub open spec fn port_text(s: Seq<char>) -> bool {
    &&& s.len() > 0
    &&& forall|i: int| 0 <= i < s.len() ==> '0' <= #[trigger] s[i] <= '9'
    &&& decimal(s) <= 65535
}

proof fn lemma_decimal_grows(s: Seq<char>, j: int)
    requires
        0 <= j <= s.len(),
        forall|i: int| 0 <= i < s.len() ==> '0' <= #[trigger] s[i] <= '9',
    ensures
        decimal(s) >= decimal(s.subrange(0, j)),
        decimal(s) >= 0,
    decreases s.len(),
{
    if s.len() > 0 {
        lemma_decimal_grows(s.drop_last(), if j == s.len() { 0 } else { j });
        if j == s.len() {
            assert(s.subrange(0, j) =~= s);
        } else {
            assert(s.drop_last().subrange(0, j) =~= s.subrange(0, j));
        }
    } else {
        assert(s.subrange(0, j) =~= s);
    }
}

/// Reads a port number.
pub fn parse_port(s: &str) -> (r: Option<u16>)
    ensures
        match r {
            Some(p) => port_text(s@) && p as int == decimal(s@),
            None => !port_text(s@),
        },
{
    let n = s.unicode_len();
    if n == 0 {
        return None;
    }
    let mut v: u32 = 0;
    let mut i: usize = 0;
    assert(s@.subrange(0, 0) =~= Seq::<char>::empty());
    while i < n
        invariant
            n == s@.len(),
            i <= n,
            forall|q: int| 0 <= q < i ==> '0' <= #[trigger] s@[q] <= '9',
            v as int == decimal(s@.subrange(0, i as int)),
            v <= 65535,
        decreases n - i,
    {
        let c = s.get_char(i);
        if c < '0' || c > '9' {
            return None;
        }
        assert(s@.subrange(0, i + 1).drop_last() =~= s@.subrange(0, i as int));
        v = v * 10 + (c as u32 - '0' as u32);
        i = i + 1;
        if v > 65535 {
            proof {
                if port_text(s@) {
                    lemma_decimal_grows(s@, i as int);
                }
            }
            return None;
        }
    }
    assert(s@.subrange(0, n as int) =~= s@);
    Some(v as u16)
}

/// `s` without its trailing spaces.
pub open spec fn trim_end(s: Seq<char>) -> Seq<char>
    decreases s.len(),
{
    if s.len() > 0 && s.last() == ' ' {
        trim_end(s.drop_last())
    } else {
        s
    }
}

/// `s` without its leading spaces.
pub open spec fn trim_start(s: Seq<char>) -> Seq<char>
    decreases s.len(),
{
    if s.len() > 0 && s[0] == ' ' {
        trim_start(s.drop_first())
    } else {
        s
    }
}

/// `s` without a pair of surrounding double quotes, if it has them.
pub open spec fn unquote(s: Seq<char>) -> Seq<char> {
    if s.len() >= 2 && s[0] == '"' && s.last() == '"' {
        s.subrange(1, s.len() - 1)
    } else {
        s
    }
}

/// End of `s[lo..hi]` once its trailing spaces are dropped.
fn trim_end_at(s: &str, lo: usize, hi: usize) -> (r: usize)
    requires
        lo <= hi <= s@.len(),
    ensures
        lo <= r <= hi,
        s@.subrange(lo as int, r as int) == trim_end(s@.subrange(lo as int, hi as int)),
{
    let mut j = hi;
    while j > lo && s.get_char(j - 1) == ' '
        invariant
            lo <= j <= hi <= s@.len(),
            trim_end(s@.subrange(lo as int, hi as int)) == trim_end(s@.subrange(lo as int, j as int)),
        decreases j - lo,
    {
        assert(s@.subrange(lo as int, j as int).drop_last() =~= s@.subrange(lo as int, j - 1));
        j = j - 1;
    }
    if j > lo {
        assert(s@.subrange(lo as int, j as int).last() == s@[j - 1]);
    } else {
        assert(s@.subrange(lo as int, j as int).len() == 0);
    }
    j
}

/// Start of `s[lo..hi]` once its leading spaces are dropped.
fn trim_start_at(s: &str, lo: usize, hi: usize) -> (r: usize)
    requires
        lo <= hi <= s@.len(),
    ensures
        lo <= r <= hi,
        s@.subrange(r as int, hi as int) == trim_start(s@.subrange(lo as int, hi as int)),
{
    let mut j = lo;
    while j < hi && s.get_char(j) == ' '
        invariant
            lo <= j <= hi <= s@.len(),
            trim_start(s@.subrange(lo as int, hi as int)) == trim_start(s@.subrange(j as int, hi as int)),
        decreases hi - j,
    {
        assert(s@.subrange(j as int, hi as int).drop_first() =~= s@.subrange(j + 1, hi as int));
        j = j + 1;
    }
    if j < hi {
        assert(s@.subrange(j as int, hi as int)[0] == s@[j as int]);
    } else {
        assert(s@.subrange(j as int, hi as int).len() == 0);
    }
    j
}

/// `e` is the position of the first `=` of `line`.
pub open spec fn first_eq(line: Seq<char>, e: int) -> bool {
    &&& 0 <= e < line.len()
    &&& line[e] == '='
    &&& forall|j: int| 0 <= j < e ==> line[j] != '='
}

/// Applies one line `key = value`, with spaces around the key and the value
/// dropped and a quoted value unquoted: `base_image`, `start_command`, `port` (a port
/// number; any other value is ignored), `phases.<name>`
/// (the one command of that phase) and `env.<name>` are read; any other line is
/// ignored.
pub open spec fn apply_line(cfg: ConfigModel, line: Seq<char>) -> ConfigModel {
    if exists|e: int| first_eq(line, e) {
        let e = choose|e: int| first_eq(line, e);
        let key = trim_end(line.subrange(0, e));
        let value = unquote(trim_end(trim_start(line.subrange(e + 1, line.len() as int))));
        if key == "base_image"@ {
            ConfigModel { base_image: Some(value), ..cfg }
        } else if key == "start_command"@ {
            ConfigModel { start_command: Some(value), ..cfg }
        } else if key == "port"@ {
            if port_text(value) {
                ConfigModel { ports: cfg.ports.push(decimal(value) as u16), ..cfg }
            } else {
                cfg
            }
        } else if key.len() > 7 && key.subrange(0, 7) == "phases."@ {
            ConfigModel {
                phases: cfg.phases.push((key.subrange(7, key.len() as int), seq![value])),
                ..cfg
            }
        } else if key.len() > 4 && key.subrange(0, 4) == "env."@ {
            ConfigModel { env: cfg.env.push((key.subrange(4, key.len() as int), value)), ..cfg }
        } else {
            cfg
        }
    } else {
        cfg
    }
}

/// Reads `rest` character by character: `line` is the text of the current line
/// so far, and each line is applied to `cfg` when it ends.
pub open spec fn parse_from(cfg: ConfigModel, line: Seq<char>, rest: Seq<char>) -> ConfigModel
    decreases rest.len(),
{
    if rest.len() == 0 {
        apply_line(cfg, line)
    } else if rest[0] == '\n' {
        parse_from(apply_line(cfg, line), Seq::empty(), rest.drop_first())
    } else {
        parse_from(cfg, line.push(rest[0]), rest.drop_first())
    }
}

/// The configuration that a text describes.
pub open spec fn config_of(s: Seq<char>) -> ConfigModel {
    parse_from(empty_config(), Seq::empty(), s)
}

fn read_line(cfg: &mut PlanConfig, line: &str)
    ensures
        config_view(*final(cfg)) == apply_line(config_view(*old(cfg)), line@),
{
    let n = line.unicode_len();
    let mut e: usize = 0;
    while e < n && line.get_char(e) != '='
        invariant
            n == line@.len(),
            e <= n,
            forall|j: int| 0 <= j < e ==> line@[j] != '=',
        decreases n - e,
    {
        e = e + 1;
    }
    if e == n {
        assert(!exists|x: int| first_eq(line@, x));
        return;
    }
    assert(first_eq(line@, e as int));
    assert forall|x: int| first_eq(line@, x) implies x == e by {
        if x < e {
        } else if x > e {
            assert(line@[e as int] != '=');
        }
    }
    let kend = trim_end_at(line, 0, e);
    let key = line.substring_char(0, kend);
    let vs = trim_start_at(line, e + 1, n);
    let ve = trim_end_at(line, vs, n);
    let (a, b) = if ve - vs >= 2 && line.get_char(vs) == '"' && line.get_char(ve - 1) == '"' {
        (vs + 1, ve - 1)
    } else {
        (vs, ve)
    };
    proof {
        let t = line@.subrange(vs as int, ve as int);
        if t.len() >= 2 && t[0] == '"' && t.last() == '"' {
            assert(t.subrange(1, t.len() - 1) =~= line@.subrange(a as int, b as int));
        } else {
            assert(t =~= line@.subrange(a as int, b as int));
        }
    }
    let value = text(line.substring_char(a, b));
    let kn = key.unicode_len();
    proof {
        reveal_strlit("phases.");
        reveal_strlit("env.");
    }
    let ghost old_cfg = config_view(*cfg);
    if same_text(key, "base_image") {
        cfg.base_image = Some(value);
    } else if same_text(key, "start_command") {
        cfg.start_command = Some(value);
    } else if same_text(key, "port") {
        match parse_port(value.as_str()) {
            Some(p) => {
                cfg.ports.push(p);
            },
            None => {},
        }
    } else if kn > 7 && same_text(key.substring_char(0, 7), "phases.") {
        let phase = text(key.substring_char(7, kn));
        let commands = vec![value];
        assert(texts(commands@) =~= seq![value@]);
        cfg.phases.push(PhaseOverride { phase, commands });
        assert(config_view(*cfg).phases =~= old_cfg.phases.push(
            (key@.subrange(7, kn as int), seq![value@]),
        ));
    } else if kn > 4 && same_text(key.substring_char(0, 4), "env.") {
        let name = text(key.substring_char(4, kn));
        cfg.env.push((name, value));
        assert(config_view(*cfg).env =~= old_cfg.env.push((key@.subrange(4, kn as int), value@)));
    }
}

/// Reads a configuration from its text: one `key=value` setting per line.
pub fn read_config(s: &str) -> (r: PlanConfig)
    ensures
        config_view(r) == config_of(s@),
{
    let mut cfg = PlanConfig {
        base_image: None,
        start_command: None,
        phases: Vec::new(),
        env: Vec::new(),
        ports: Vec::new(),
    };
    assert(config_view(cfg).phases =~= empty_config().phases);
    assert(config_view(cfg).env =~= empty_config().env);
    assert(config_view(cfg).ports =~= empty_config().ports);
    let n = s.unicode_len();
    let mut start: usize = 0;
    let mut i: usize = 0;
    assert(s@.subrange(0, 0) =~= Seq::<char>::empty());
    assert(s@.subrange(0, n as int) =~= s@);
    while i < n
        invariant
            n == s@.len(),
            start <= i <= n,
            config_of(s@) == parse_from(
                config_view(cfg),
                s@.subrange(start as int, i as int),
                s@.subrange(i as int, n as int),
            ),
        decreases n - i,
    {
        assert(s@.subrange(i as int, n as int).drop_first() =~= s@.subrange(i + 1, n as int));
        assert(s@.subrange(i as int, n as int)[0] == s@[i as int]);
        if s.get_char(i) == '\n' {
            read_line(&mut cfg, s.substring_char(start, i));
            start = i + 1;
            assert(s@.subrange(start as int, start as int) =~= Seq::<char>::empty());
        } else {
            assert(s@.subrange(start as int, i as int).push(s@[i as int]) =~= s@.subrange(
                start as int,
                i + 1,
            ));
        }
        i = i + 1;
    }
    read_line(&mut cfg, s.substring_char(start, n));
    assert(s@.subrange(n as int, n as int).len() == 0);
    cfg
}

} // verus!
