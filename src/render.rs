use vstd::prelude::*;

use crate::builder::{instr_models, InstrModel, Instruction};

verus! {

/// The decimal digit characters, by value.
pub open spec fn digit_chars() -> Seq<char> {
    "0123456789"@
}

/// The decimal text of `n`.
pub open spec fn dec(n: nat) -> Seq<char>
    decreases n,
{
    if n < 10 {
        seq![digit_chars()[n as int]]
    } else {
        dec(n / 10) + seq![digit_chars()[(n % 10) as int]]
    }
}

/// `s` inside double quotes, with `"` and `\` escaped by a backslash.
pub open spec fn escape(s: Seq<char>) -> Seq<char>
    decreases s.len(),
{
    if s.len() == 0 {
        Seq::empty()
    } else {
        escape(s.drop_last()) + if s.last() == '"' || s.last() == '\\' {
            seq!['\\', s.last()]
        } else {
            seq![s.last()]
        }
    }
}

/// The container-file line of one instruction. Cache steps become comments that
/// carry the key, for the engine's layer cache to key on.
pub open spec fn line_of(i: InstrModel) -> Seq<char> {
    match i {
        InstrModel::From(s) => "FROM "@ + s,
        InstrModel::Env(n, v) => "ENV "@ + n + "=\""@ + escape(v) + "\""@,
        InstrModel::CacheRestore(k) => "# restore cache "@ + dec(k as nat),
        InstrModel::Run(c) => "RUN "@ + c,
        InstrModel::CacheSave(k) => "# save cache "@ + dec(k as nat),
        InstrModel::Entrypoint(c) => "CMD [\"sh\", \"-c\", \""@ + escape(c) + "\"]"@,
        InstrModel::Expose(p) => "EXPOSE "@ + dec(p as nat),
    }
}

/// The text of a list of instructions, one line each.
pub open spec fn text_of(is: Seq<InstrModel>) -> Seq<char>
    decreases is.len(),
{
    if is.len() == 0 {
        Seq::empty()
    } else {
        text_of(is.drop_last()) + line_of(is.last()) + "\n"@
    }
}

/// Appends the decimal text of `n`.
pub fn push_dec(out: &mut String, n: u64)
    ensures
        final(out)@ == old(out)@ + dec(n as nat),
    decreases n,
{
    let digits = "0123456789";
    proof {
        reveal_strlit("0123456789");
    }
    if n < 10 {
        out.append(digits.substring_char(n as usize, n as usize + 1));
        assert(digits@.subrange(n as int, n + 1) =~= seq![digit_chars()[n as int]]);
    } else {
        push_dec(out, n / 10);
        let d = (n % 10) as usize;
        out.append(digits.substring_char(d, d + 1));
        assert(digits@.subrange(d as int, d + 1) =~= seq![digit_chars()[d as int]]);
        assert(old(out)@ + dec((n / 10) as nat) + seq![digit_chars()[d as int]] =~= old(out)@ + dec(
            n as nat,
        ));
    }
}

/// Appends `s` with `"` and `\` escaped.
pub fn push_escaped(out: &mut String, s: &str)
    ensures
        final(out)@ == old(out)@ + escape(s@),
{
    let n = s.unicode_len();
    let mut i: usize = 0;
    assert(s@.subrange(0, 0) =~= Seq::<char>::empty());
    while i < n
        invariant
            n == s@.len(),
            i <= n,
            out@ == old(out)@ + escape(s@.subrange(0, i as int)),
        decreases n - i,
    {
        let c = s.get_char(i);
        let ghost before = out@;
        assert(s@.subrange(0, i + 1).drop_last() =~= s@.subrange(0, i as int));
        assert(s@.subrange(0, i + 1).last() == c);
        if c == '"' {
            out.append("\\\"");
            proof {
                reveal_strlit("\\\"");
            }
            assert("\\\""@ =~= seq!['\\', '"']);
        } else if c == '\\' {
            out.append("\\\\");
            proof {
                reveal_strlit("\\\\");
            }
            assert("\\\\"@ =~= seq!['\\', '\\']);
        } else {
            out.append(s.substring_char(i, i + 1));
            assert(s@.subrange(i as int, i + 1) =~= seq![c]);
        }
        assert(out@ =~= old(out)@ + escape(s@.subrange(0, i + 1)));
        i = i + 1;
    }
    assert(s@.subrange(0, n as int) =~= s@);
}

/// Appends the line of one instruction.
pub fn push_line(out: &mut String, i: &Instruction)
    ensures
        final(out)@ == old(out)@ + line_of(i@),
{
    let ghost start = out@;
    match i {
        Instruction::From { image } => {
            out.append("FROM ");
            out.append(image.as_str());
        },
        Instruction::Env { name, value } => {
            out.append("ENV ");
            out.append(name.as_str());
            out.append("=\"");
            push_escaped(out, value.as_str());
            out.append("\"");
        },
        Instruction::CacheRestore { key } => {
            out.append("# restore cache ");
            push_dec(out, *key);
        },
        Instruction::Run { command } => {
            out.append("RUN ");
            out.append(command.as_str());
        },
        Instruction::CacheSave { key } => {
            out.append("# save cache ");
            push_dec(out, *key);
        },
        Instruction::Entrypoint { command } => {
            out.append("CMD [\"sh\", \"-c\", \"");
            push_escaped(out, command.as_str());
            out.append("\"]");
        },
        Instruction::Expose { port } => {
            out.append("EXPOSE ");
            push_dec(out, *port as u64);
        },
    }
    assert(out@ =~= start + line_of(i@));
}

/// The container-file text of an instruction sequence, one line per instruction.
pub fn render(instrs: &[Instruction]) -> (r: String)
    ensures
        r@ == text_of(instr_models(instrs@)),
{
    let ghost ms = instr_models(instrs@);
    let mut out = String::new();
    let mut i: usize = 0;
    while i < instrs.len()
        invariant
            i <= instrs@.len(),
            ms == instr_models(instrs@),
            out@ == text_of(ms.subrange(0, i as int)),
        decreases instrs@.len() - i,
    {
        assert(ms.subrange(0, i + 1).drop_last() =~= ms.subrange(0, i as int));
        assert(ms.subrange(0, i + 1).last() == instrs@[i as int]@);
        push_line(&mut out, &instrs[i]);
        out.append("\n");
        i = i + 1;
    }
    assert(ms.subrange(0, i as int) =~= ms);
    out
}

} // verus!
