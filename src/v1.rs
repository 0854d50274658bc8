//! Roll commands: the arguments of a parsed command are folded into roll
//! flags, with the equation that describes them, and the roll is resolved.
use vstd::prelude::*;
use vstd::string::*;
use crate::comparison::ComparisonArg;
use crate::die::DieType;
use crate::flags::RollFlags;
use crate::roll::{resolves, Roll, RollError};
use crate::source::DiceSource;

verus! {

/// One argument of a roll command, its number already read.
pub enum RollArg {
    /// Number of dice
    N(i16),
    /// Faces of a standard die, numbered from one
    D(i16),
    /// Keep the highest
    H(i16),
    /// Keep the lowest
    L(i16),
    GT(i16),
    GTE(i16),
    LT(i16),
    LTE(i16),
    /// Reroll forever
    RR(ComparisonArg, i16),
    /// Reroll once
    RO(ComparisonArg, i16),
    ModifierPos(i16),
    ModifierNeg(i16),
    Max(i16),
    Min(i16),
    /// Explicit face values
    Sides(Vec<i16>),
    Comment(String),
    /// Ends one roll of the command and starts the next
    Primitive,
}

/// The decimal digit `d`.
pub open spec fn digit(d: int) -> char {
    if d == 0 {
        '0'
    } else if d == 1 {
        '1'
    } else if d == 2 {
        '2'
    } else if d == 3 {
        '3'
    } else if d == 4 {
        '4'
    } else if d == 5 {
        '5'
    } else if d == 6 {
        '6'
    } else if d == 7 {
        '7'
    } else if d == 8 {
        '8'
    } else {
        '9'
    }
}

/// The decimal digits of `n`, without leading zeros.
pub open spec fn digits(n: nat) -> Seq<char>
    decreases n,
{
    if n < 10 {
        seq![digit(n as int)]
    } else {
        digits(n / 10).push(digit((n % 10) as int))
    }
}

/// `n` in decimal, with a minus sign when negative.
pub open spec fn decimal(n: int) -> Seq<char> {
    if n < 0 {
        seq!['-'] + digits((-n) as nat)
    } else {
        digits(n as nat)
    }
}

/// Relies on `ToString` through the `Display` of `i16`: the number in
/// decimal, with a leading minus sign when negative.
#[verifier::external_body]
fn decimal_string(n: i16) -> (r: String)
    ensures
        r@ == decimal(n as int),
{
    n.to_string()
}

/// The face values written out, separated by commas.
pub open spec fn joined(s: Seq<i16>) -> Seq<char>
    decreases s.len(),
{
    if s.len() == 0 {
        Seq::empty()
    } else if s.len() == 1 {
        decimal(s[0] as int)
    } else {
        joined(s.drop_last()) + ","@ + decimal(s.last() as int)
    }
}

/// The lowest and highest face of a face list; both zero when it is empty.
pub open spec fn sides_bounds(s: Seq<i16>) -> (i16, i16)
    decreases s.len(),
{
    if s.len() == 0 {
        (0, 0)
    } else if s.len() == 1 {
        (s[0], s[0])
    } else {
        let (lo, hi) = sides_bounds(s.drop_last());
        let x = s.last();
        (if x < lo {
            x
        } else {
            lo
        }, if x > hi {
            x
        } else {
            hi
        })
    }
}

/// The comparison as written in an equation.
pub open spec fn op_text(op: ComparisonArg) -> Seq<char> {
    match op {
        ComparisonArg::GreaterThan => ">"@,
        ComparisonArg::GreaterThanOrEqual => ">="@,
        ComparisonArg::LessThan => "<"@,
        ComparisonArg::LessThanOrEqual => "<="@,
        ComparisonArg::EqualTo => "=="@,
    }
}

fn op_symbol(op: ComparisonArg) -> (r: &'static str)
    ensures
        r@ == op_text(op),
{
    match op {
        ComparisonArg::GreaterThan => ">",
        ComparisonArg::GreaterThanOrEqual => ">=",
        ComparisonArg::LessThan => "<",
        ComparisonArg::LessThanOrEqual => "<=",
        ComparisonArg::EqualTo => "==",
    }
}

/// A subtracted modifier as stored: negated, `i16::MIN` giving `i16::MAX`.
pub open spec fn negated(m: i16) -> i16 {
    if m == i16::MIN {
        i16::MAX
    } else {
        (-m) as i16
    }
}

/// What an argument adds to the equation.
pub open spec fn arg_text(arg: RollArg) -> Seq<char> {
    match arg {
        RollArg::N(v) => decimal(v as int),
        RollArg::D(v) => "d"@ + decimal(v as int),
        RollArg::H(v) => "kh"@ + decimal(v as int),
        RollArg::L(v) => "kl"@ + decimal(v as int),
        RollArg::GT(v) => "gt"@ + decimal(v as int),
        RollArg::GTE(v) => "gte"@ + decimal(v as int),
        RollArg::LT(v) => "lt"@ + decimal(v as int),
        RollArg::LTE(v) => "lte"@ + decimal(v as int),
        RollArg::RR(op, v) => "rr"@ + op_text(op) + decimal(v as int),
        RollArg::RO(op, v) => "ro"@ + op_text(op) + decimal(v as int),
        RollArg::ModifierPos(v) => if v != 0 {
            "+"@ + decimal(v as int)
        } else {
            Seq::empty()
        },
        RollArg::ModifierNeg(v) => if v != 0 {
            "-"@ + decimal(v as int)
        } else {
            Seq::empty()
        },
        RollArg::Max(v) => "max"@ + decimal(v as int),
        RollArg::Min(v) => "min"@ + decimal(v as int),
        RollArg::Sides(s) => "["@ + joined(s@) + "]"@,
        RollArg::Comment(c) => "["@ + c@ + "]"@,
        RollArg::Primitive => Seq::empty(),
    }
}

/// `new` is `old` after `arg`: a `Primitive` starts blank flags; any other
/// argument sets its fields and appends its text to the equation.
pub open spec fn applied(old: RollFlags, arg: RollArg, new: RollFlags) -> bool {
    if arg is Primitive {
        new.is_blank()
    } else {
        &&& new.equation@ == old.equation@ + arg_text(arg)
        &&& new.comment@ == match arg {
            RollArg::Comment(c) => c@,
            _ => old.comment@,
        }
        &&& new.die == match arg {
            RollArg::D(v) => DieType::spec_from_faces(v as int),
            _ => old.die,
        }
        &&& new.n == match arg {
            RollArg::N(v) => v,
            _ => old.n,
        }
        &&& new.max == match arg {
            RollArg::D(v) => v,
            RollArg::Max(v) => v,
            RollArg::Sides(s) => sides_bounds(s@).1,
            _ => old.max,
        }
        &&& new.min == match arg {
            RollArg::Min(v) => v,
            RollArg::Sides(s) => sides_bounds(s@).0,
            _ => old.min,
        }
        &&& new.kh == match arg {
            RollArg::H(v) => v,
            _ => old.kh,
        }
        &&& new.kl == match arg {
            RollArg::L(v) => v,
            _ => old.kl,
        }
        &&& new.gt == match arg {
            RollArg::GT(v) => v as u16,
            _ => old.gt,
        }
        &&& new.gte == match arg {
            RollArg::GTE(v) => v as u16,
            _ => old.gte,
        }
        &&& new.lt == match arg {
            RollArg::LT(v) => v as u16,
            _ => old.lt,
        }
        &&& new.lte == match arg {
            RollArg::LTE(v) => v as u16,
            _ => old.lte,
        }
        &&& new.rr == match arg {
            RollArg::RR(_, v) => v,
            _ => old.rr,
        }
        &&& new.rr_op == match arg {
            RollArg::RR(op, _) => Some(op),
            _ => old.rr_op,
        }
        &&& new.ro == match arg {
            RollArg::RO(_, v) => v,
            _ => old.ro,
        }
        &&& new.ro_op == match arg {
            RollArg::RO(op, _) => Some(op),
            _ => old.ro_op,
        }
        &&& new.modifiers@ == match arg {
            RollArg::ModifierPos(v) => if v != 0 {
                old.modifiers@.push(v)
            } else {
                old.modifiers@
            },
            RollArg::ModifierNeg(v) => if v != 0 {
                old.modifiers@.push(negated(v))
            } else {
                old.modifiers@
            },
            _ => old.modifiers@,
        }
        &&& match arg {
            RollArg::Sides(s) => new.sides is Some && new.sides->Some_0@ == s@,
            _ => new.sides == old.sides,
        }
    }
}

/// `trace` lists the flags before each argument and after the last: it
/// starts blank and each argument takes one entry to the next.
pub open spec fn is_trace(args: Seq<RollArg>, trace: Seq<RollFlags>) -> bool {
    &&& trace.len() == args.len() + 1
    &&& trace[0].is_blank()
    &&& forall|k: int| 0 <= k < args.len() ==> #[trigger] applied(trace[k], args[k], trace[k + 1])
}

/// `f` is what the arguments build from blank flags, one after the other.
pub open spec fn built(args: Seq<RollArg>, f: RollFlags) -> bool {
    exists|trace: Seq<RollFlags>| #[trigger] is_trace(args, trace) && trace.last() == f
}

impl RollFlags {
    fn append_number(&mut self, prefix: &str, v: i16)
        ensures
            final(self).equation@ == old(self).equation@ + prefix@ + decimal(v as int),
            final(self).comment@ == old(self).comment@,
            final(self).modifiers@ == old(self).modifiers@,
            final(self).sides == old(self).sides,
            final(self).die == old(self).die,
            final(self).n == old(self).n && final(self).min == old(self).min && final(self).max == old(self).max,
            final(self).gt == old(self).gt && final(self).gte == old(self).gte,
            final(self).lt == old(self).lt && final(self).lte == old(self).lte,
            final(self).kh == old(self).kh && final(self).kl == old(self).kl,
            final(self).rr == old(self).rr && final(self).ro == old(self).ro,
            final(self).rr_op == old(self).rr_op && final(self).ro_op == old(self).ro_op,
    {
        let text: String = decimal_string(v);
        self.equation.append(prefix);
        self.equation.append(text.as_str());
        assert(final(self).equation@ =~= old(self).equation@ + prefix@ + decimal(v as int));
    }

    /// Applies one argument of a roll command.
    pub fn apply_arg(&mut self, arg: &RollArg)
        ensures
            applied(*old(self), *arg, *final(self)),
    {
        match arg {
            RollArg::N(v) => {
                self.n = *v;
                let text: String = decimal_string(*v);
                self.equation.append(text.as_str());
                assert(final(self).equation@ == old(self).equation@ + decimal(*v as int));
            },
            RollArg::D(v) => {
                self.max = *v;
                self.die = DieType::from_faces(*v as i64);
                self.append_number("d", *v);
                assert(final(self).equation@ =~= old(self).equation@ + arg_text(*arg));
            },
            RollArg::H(v) => {
                self.kh = *v;
                self.append_number("kh", *v);
                assert(final(self).equation@ =~= old(self).equation@ + arg_text(*arg));
            },
            RollArg::L(v) => {
                self.kl = *v;
                self.append_number("kl", *v);
                assert(final(self).equation@ =~= old(self).equation@ + arg_text(*arg));
            },
            RollArg::GT(v) => {
                self.gt = *v as u16;
                self.append_number("gt", *v);
                assert(final(self).equation@ =~= old(self).equation@ + arg_text(*arg));
            },
            RollArg::GTE(v) => {
                self.gte = *v as u16;
                self.append_number("gte", *v);
                assert(final(self).equation@ =~= old(self).equation@ + arg_text(*arg));
            },
            RollArg::LT(v) => {
                self.lt = *v as u16;
                self.append_number("lt", *v);
                assert(final(self).equation@ =~= old(self).equation@ + arg_text(*arg));
            },
            RollArg::LTE(v) => {
                self.lte = *v as u16;
                self.append_number("lte", *v);
                assert(final(self).equation@ =~= old(self).equation@ + arg_text(*arg));
            },
            RollArg::RR(op, v) => {
                self.rr = *v;
                self.rr_op = Some(*op);
                self.equation.append("rr");
                self.append_number(op_symbol(*op), *v);
                assert(final(self).equation@ =~= old(self).equation@ + arg_text(*arg));
            },
            RollArg::RO(op, v) => {
                self.ro = *v;
                self.ro_op = Some(*op);
                self.equation.append("ro");
                self.append_number(op_symbol(*op), *v);
                assert(final(self).equation@ =~= old(self).equation@ + arg_text(*arg));
            },
            RollArg::ModifierPos(v) => {
                if *v != 0 {
                    self.modifiers.push(*v);
                    self.append_number("+", *v);
                    assert(final(self).equation@ =~= old(self).equation@ + arg_text(*arg));
                }
            },
            RollArg::ModifierNeg(v) => {
                if *v != 0 {
                    let m: i16 = if *v == i16::MIN {
                        i16::MAX
                    } else {
                        -*v
                    };
                    self.modifiers.push(m);
                    self.append_number("-", *v);
                    assert(final(self).equation@ =~= old(self).equation@ + arg_text(*arg));
                }
            },
            RollArg::Max(v) => {
                self.max = *v;
                self.append_number("max", *v);
                assert(final(self).equation@ =~= old(self).equation@ + arg_text(*arg));
            },
            RollArg::Min(v) => {
                self.min = *v;
                self.append_number("min", *v);
                assert(final(self).equation@ =~= old(self).equation@ + arg_text(*arg));
            },
            RollArg::Sides(list) => {
                let mut lo: i16 = 0;
                let mut hi: i16 = 0;
                let mut faces: Vec<i16> = Vec::new();
                let mut text: String = String::new();
                let mut i: usize = 0;
                while i < list.len()
                    invariant
                        0 <= i <= list@.len(),
                        faces@ == list@.subrange(0, i as int),
                        (lo, hi) == sides_bounds(faces@),
                        text@ == joined(faces@),
                    decreases list@.len() - i,
                {
                    let x: i16 = list[i];
                    if i == 0 {
                        lo = x;
                        hi = x;
                    } else {
                        if x < lo {
                            lo = x;
                        }
                        if x > hi {
                            hi = x;
                        }
                    }
                    let ghost before = faces@;
                    if i > 0 {
                        text.append(",");
                    }
                    let digits_text: String = decimal_string(x);
                    text.append(digits_text.as_str());
                    faces.push(x);
                    assert(faces@.drop_last() =~= before);
                    assert(faces@ =~= list@.subrange(0, i as int + 1));
                    i = i + 1;
                }
                assert(faces@ =~= list@);
                self.sides = Some(faces);
                self.min = lo;
                self.max = hi;
                self.equation.append("[");
                self.equation.append(text.as_str());
                self.equation.append("]");
                assert(final(self).equation@ =~= old(self).equation@ + arg_text(*arg));
            },
            RollArg::Comment(c) => {
                self.comment = c.clone();
                self.equation.append("[");
                self.equation.append(c.as_str());
                self.equation.append("]");
                assert(final(self).equation@ =~= old(self).equation@ + arg_text(*arg));
            },
            RollArg::Primitive => {
                *self = RollFlags::new();
            },
        }
    }
}

/// The flags that the arguments of a command build, from blank flags; a
/// `Primitive` starts over, so only the arguments after the last one count.
pub fn flags_from_args(args: &Vec<RollArg>) -> (r: RollFlags)
    ensures
        built(args@, r),
{
    let mut flags: RollFlags = RollFlags::new();
    let ghost mut trace: Seq<RollFlags> = seq![flags];
    let mut i: usize = 0;
    while i < args.len()
        invariant
            0 <= i <= args@.len(),
            is_trace(args@.subrange(0, i as int), trace),
            trace.last() == flags,
        decreases args@.len() - i,
    {
        let ghost prev = trace;
        flags.apply_arg(&args[i]);
        proof {
            trace = trace.push(flags);
            let s = args@.subrange(0, i as int + 1);
            assert forall|k: int| 0 <= k < s.len() implies #[trigger] applied(trace[k], s[k], trace[k + 1]) by {
                if k < i {
                    assert(s[k] == args@.subrange(0, i as int)[k]);
                    assert(trace[k] == prev[k] && trace[k + 1] == prev[k + 1]);
                }
            }
        }
        i = i + 1;
    }
    assert(args@.subrange(0, args@.len() as int) =~= args@);
    assert(is_trace(args@, trace));
    flags
}

/// Resolves the roll that a command's arguments describe.
pub fn roll(args: &Vec<RollArg>, source: &mut DiceSource) -> (r: Result<Roll, RollError>)
    ensures
        exists|f: RollFlags| #[trigger] built(args@, f) && resolves(f, r),
{
    let flags: RollFlags = flags_from_args(args);
    let ghost f = flags;
    let r = Roll::new(flags, source);
    assert(built(args@, f) && resolves(f, r));
    r
}

/// A resolved roll and how long it took.
pub struct RollsResponse {
    pub roll: Roll,
    /// Time spent resolving the roll, in milliseconds
    pub execution_time: u64,
}

impl RollsResponse {
    /// The response for `roll`, resolved in `secs` seconds and `nanos`
    /// nanoseconds; the time is reported in whole milliseconds.
    pub fn new(roll: Roll, secs: u64, nanos: u32) -> (r: RollsResponse)
        requires
            secs <= u64::MAX / 1000 - 1000,
        ensures
            r.roll == roll,
            r.execution_time == secs * 1000 + nanos / 1_000_000,
    {
        RollsResponse { roll, execution_time: secs * 1000 + (nanos / 1_000_000) as u64 }
    }
}

} // verus!
