//! The command surface: arguments such as `add <text> <priority>`,
//! `list [--pending | --priority <p>]`, `done <id>` and `remove <id>`, read
//! into store operations.
use crate::listing::Filter;
use crate::record::{Priority, TodoError};
use vstd::prelude::*;
use vstd::string::StrSliceExecFns;

verus! {

/// One operation on the store.
pub enum Command {
    Add(String, Priority),
    List(Filter),
    Done(u64),
    Remove(u64),
}

/// Whether `a` and `b` hold the same characters.
pub fn same_text(a: &str, b: &str) -> (r: bool)
    ensures
        r == (a@ == b@),
{
    let n = a.unicode_len();
    if n != b.unicode_len() {
        return false;
    }
    let mut i: usize = 0;
    while i < n
        invariant
            n == a@.len() == b@.len(),
            i <= n,
            a@.take(i as int) == b@.take(i as int),
        decreases n - i,
    {
        if a.get_char(i) != b.get_char(i) {
            assert(a@[i as int] != b@[i as int]);
            return false;
        }
        assert(a@.take(i + 1) == a@.take(i as int).push(a@[i as int]));
        assert(b@.take(i + 1) == b@.take(i as int).push(b@[i as int]));
        i = i + 1;
    }
    assert(a@.take(n as int) == a@);
    assert(b@.take(n as int) == b@);
    true
}

/// The name of each priority on the command line.
pub open spec fn priority_name(p: Priority) -> Seq<char> {
    match p {
        Priority::Fuck => "fuck"@,
        Priority::High => "high"@,
        Priority::Medium => "medium"@,
        Priority::Soft => "soft"@,
        Priority::Chill => "chill"@,
    }
}

/// The priority named `s`.
pub open spec fn priority_named(s: Seq<char>) -> Result<Priority, TodoError> {
    if s == priority_name(Priority::Fuck) {
        Ok(Priority::Fuck)
    } else if s == priority_name(Priority::High) {
        Ok(Priority::High)
    } else if s == priority_name(Priority::Medium) {
        Ok(Priority::Medium)
    } else if s == priority_name(Priority::Soft) {
        Ok(Priority::Soft)
    } else if s == priority_name(Priority::Chill) {
        Ok(Priority::Chill)
    } else {
        Err(TodoError::InvalidInput)
    }
}

impl Priority {
    /// The priority's name on the command line.
    pub fn name(&self) -> (r: &'static str)
        ensures
            r@ == priority_name(*self),
    {
        match self {
            Priority::Fuck => "fuck",
            Priority::High => "high",
            Priority::Medium => "medium",
            Priority::Soft => "soft",
            Priority::Chill => "chill",
        }
    }

    /// The priority named `s`; an unknown name is invalid input.
    pub fn parse(s: &str) -> (r: Result<Priority, TodoError>)
        ensures
            r == priority_named(s@),
    {
        if same_text(s, "fuck") {
            Ok(Priority::Fuck)
        } else if same_text(s, "high") {
            Ok(Priority::High)
        } else if same_text(s, "medium") {
            Ok(Priority::Medium)
        } else if same_text(s, "soft") {
            Ok(Priority::Soft)
        } else if same_text(s, "chill") {
            Ok(Priority::Chill)
        } else {
            Err(TodoError::InvalidInput)
        }
    }
}

/// `s` is one or more decimal digits.
pub open spec fn is_decimal(s: Seq<char>) -> bool {
    s.len() > 0 && forall|i: int| 0 <= i < s.len() ==> '0' <= #[trigger] s[i] <= '9'
}

/// The number that the decimal digits `s` spell.
pub open spec fn decimal_value(s: Seq<char>) -> nat
    decreases s.len(),
{
    if s.len() == 0 {
        0
    } else {
        decimal_value(s.drop_last()) * 10 + (s.last() as nat - '0' as nat) as nat
    }
}

/// The id that `s` spells, where it is a decimal number that fits in `u64`.
pub open spec fn id_spelled(s: Seq<char>) -> Result<u64, TodoError> {
    if is_decimal(s) && decimal_value(s) <= u64::MAX {
        Ok(decimal_value(s) as u64)
    } else {
        Err(TodoError::InvalidInput)
    }
}

proof fn lemma_decimal_value_grows(s: Seq<char>, i: int)
    requires
        0 <= i <= s.len(),
        forall|j: int| 0 <= j < s.len() ==> '0' <= #[trigger] s[j] <= '9',
    ensures
        decimal_value(s.take(i)) <= decimal_value(s),
    decreases s.len() - i,
{
    if i < s.len() {
        lemma_decimal_value_grows(s, i + 1);
        assert(s.take(i + 1).drop_last() == s.take(i));
    } else {
        assert(s.take(i) == s);
    }
}

/// The id written in decimal in `s`.
pub fn parse_id(s: &str) -> (r: Result<u64, TodoError>)
    ensures
        r == id_spelled(s@),
{
    let n = s.unicode_len();
    if n == 0 {
        return Err(TodoError::InvalidInput);
    }
    let mut acc: u64 = 0;
    let mut i: usize = 0;
    while i < n
        invariant
            n == s@.len(),
            i <= n,
            forall|j: int| 0 <= j < i ==> '0' <= #[trigger] s@[j] <= '9',
            acc == decimal_value(s@.take(i as int)),
        decreases n - i,
    {
        let c = s.get_char(i);
        if c < '0' || c > '9' {
            return Err(TodoError::InvalidInput);
        }
        let d = (c as u32 - '0' as u32) as u64;
        assert(s@.take(i + 1).drop_last() == s@.take(i as int));
        if acc > (u64::MAX - d) / 10 {
            proof {
                let a = acc as int;
                let dd = d as int;
                assert(a * 10 + dd > u64::MAX) by (nonlinear_arith)
                    requires
                        a > (u64::MAX - dd) / 10,
                        0 <= dd <= 9,
                ;
                if is_decimal(s@) {
                    lemma_decimal_value_grows(s@, i + 1);
                }
            }
            return Err(TodoError::InvalidInput);
        }
        acc = acc * 10 + d;
        i = i + 1;
    }
    assert(s@.take(n as int) == s@);
    Ok(acc)
}

/// The mathematical value of a [`Command`].
pub ghost enum CommandModel {
    Add(Seq<char>, Priority),
    List(Filter),
    Done(u64),
    Remove(u64),
}

impl View for Command {
    type V = CommandModel;

    open spec fn view(&self) -> CommandModel {
        match self {
            Command::Add(text, p) => CommandModel::Add(text@, *p),
            Command::List(f) => CommandModel::List(*f),
            Command::Done(id) => CommandModel::Done(*id),
            Command::Remove(id) => CommandModel::Remove(*id),
        }
    }
}

/// What the arguments `args` (the command name first) ask for.
pub open spec fn command_of(args: Seq<Seq<char>>) -> Result<CommandModel, TodoError> {
    if args.len() == 3 && args[0] == "add"@ {
        match priority_named(args[2]) {
            Ok(p) => Ok(CommandModel::Add(args[1], p)),
            Err(e) => Err(e),
        }
    } else if args.len() == 1 && args[0] == "list"@ {
        Ok(CommandModel::List(Filter::All))
    } else if args.len() == 2 && args[0] == "list"@ && args[1] == "--pending"@ {
        Ok(CommandModel::List(Filter::Pending))
    } else if args.len() == 3 && args[0] == "list"@ && args[1] == "--priority"@ {
        match priority_named(args[2]) {
            Ok(p) => Ok(CommandModel::List(Filter::AtLeast(p))),
            Err(e) => Err(e),
        }
    } else if args.len() == 2 && args[0] == "done"@ {
        match id_spelled(args[1]) {
            Ok(id) => Ok(CommandModel::Done(id)),
            Err(e) => Err(e),
        }
    } else if args.len() == 2 && args[0] == "remove"@ {
        match id_spelled(args[1]) {
            Ok(id) => Ok(CommandModel::Remove(id)),
            Err(e) => Err(e),
        }
    } else {
        Err(TodoError::InvalidInput)
    }
}

/// The command that `args` (the command name first) ask for; anything else
/// is invalid input.
pub fn parse_command(args: &Vec<String>) -> (r: Result<Command, TodoError>)
    ensures
        r is Ok <==> command_of(args@.map_values(|a: String| a@)) is Ok,
        r is Ok ==> r->Ok_0@ == command_of(args@.map_values(|a: String| a@))->Ok_0,
        r is Err ==> r->Err_0 == command_of(args@.map_values(|a: String| a@))->Err_0,
{
    let ghost v = args@.map_values(|a: String| a@);
    proof {
        reveal_strlit("add");
        reveal_strlit("list");
        reveal_strlit("done");
        reveal_strlit("remove");
        assert("list"@[0] != "done"@[0]);
        assert("list"@ != "done"@);
        assert("list"@ != "remove"@);
    }
    let n = args.len();
    if n == 0 {
        return Err(TodoError::InvalidInput);
    }
    let name = args[0].as_str();
    assert(v[0] == args@[0]@);
    if n == 3 && same_text(name, "add") {
        assert(v[1] == args@[1]@ && v[2] == args@[2]@);
        let p = Priority::parse(args[2].as_str())?;
        return Ok(Command::Add(args[1].clone(), p));
    }
    if same_text(name, "list") {
        if n == 1 {
            return Ok(Command::List(Filter::All));
        }
        assert(v[1] == args@[1]@);
        if n == 2 && same_text(args[1].as_str(), "--pending") {
            return Ok(Command::List(Filter::Pending));
        }
        if n == 3 && same_text(args[1].as_str(), "--priority") {
            assert(v[2] == args@[2]@);
            let p = Priority::parse(args[2].as_str())?;
            return Ok(Command::List(Filter::AtLeast(p)));
        }
        return Err(TodoError::InvalidInput);
    }
    if n == 2 && same_text(name, "done") {
        assert(v[1] == args@[1]@);
        let id = parse_id(args[1].as_str())?;
        return Ok(Command::Done(id));
    }
    if n == 2 && same_text(name, "remove") {
        assert(v[1] == args@[1]@);
        let id = parse_id(args[1].as_str())?;
        return Ok(Command::Remove(id));
    }
    Err(TodoError::InvalidInput)
}

} // verus!
