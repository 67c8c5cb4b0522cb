use vstd::prelude::*;

verus! {

/// Life cycle of a task.
#[derive(PartialEq, Eq, Structural, Clone, Copy, Debug)]
pub enum TaskState {
    Init,
    Running,
    Cancelled,
    Finished,
}

/// What a task is, as the scheduler sees it: its id, its name and its state.
/// (The future that the task runs is kept by whoever polls it, under the
/// task's id.)
pub struct TaskView {
    pub id: u64,
    pub name: Seq<char>,
    pub state: TaskState,
}

/// The character of a decimal digit.
pub open spec fn digit_char(d: nat) -> char {
    if d == 0 {
        '0'
    } else if d == 1 {
        '1'
    } else if d == 2 {
        '2'
    } else if d == 3 {
        '3'
    } else if d == 4 {
        '4'
    } else if d == 5 {
        '5'
    } else if d == 6 {
        '6'
    } else if d == 7 {
        '7'
    } else if d == 8 {
        '8'
    } else {
        '9'
    }
}

/// The decimal notation of `n`, most significant digit first, with no
/// leading zero.
pub open spec fn decimal(n: nat) -> Seq<char>
    decreases n,
{
    if n < 10 {
        seq![digit_char(n)]
    } else {
        decimal(n / 10).push(digit_char(n % 10))
    }
}

/// The name a task gets when it is created: `Task_` and its id in decimal.
pub open spec fn default_task_name(id: u64) -> Seq<char> {
    seq!['T', 'a', 's', 'k', '_'] + decimal(id as nat)
}

/// The value of a decimal digit character (0 for any other character).
pub open spec fn digit_value(c: char) -> nat {
    if c == '1' {
        1
    } else if c == '2' {
        2
    } else if c == '3' {
        3
    } else if c == '4' {
        4
    } else if c == '5' {
        5
    } else if c == '6' {
        6
    } else if c == '7' {
        7
    } else if c == '8' {
        8
    } else if c == '9' {
        9
    } else {
        0
    }
}

/// Whether a character is a decimal digit.
pub open spec fn is_digit(c: char) -> bool {
    '0' <= c && c <= '9'
}

/// The number that a string of decimal digits denotes, most significant
/// digit first.
pub open spec fn decimal_value(s: Seq<char>) -> nat
    decreases s.len(),
{
    if s.len() == 0 {
        0
    } else {
        decimal_value(s.drop_last()) * 10 + digit_value(s.last())
    }
}

/// A digit's character has the digit's value.
proof fn lemma_digit_value(d: nat)
    requires
        d < 10,
    ensures
        digit_value(digit_char(d)) == d,
        is_digit(digit_char(d)),
{
}

/// The decimal notation of `n` is a non-empty string of digits that denotes
/// `n`.
pub proof fn lemma_decimal_denotes(n: nat)
    ensures
        decimal(n).len() > 0,
        forall|i: int| 0 <= i < decimal(n).len() ==> is_digit(#[trigger] decimal(n)[i]),
        decimal_value(decimal(n)) == n,
    decreases n,
{
    if n >= 10 {
        lemma_decimal_denotes(n / 10);
        let d = decimal(n);
        assert(d.drop_last() =~= decimal(n / 10));
        assert(d.last() == digit_char(n % 10));
        lemma_digit_value(n % 10);
        assert(decimal_value(d) == decimal_value(decimal(n / 10)) * 10 + digit_value(d.last()));
        assert forall|i: int| 0 <= i < d.len() implies is_digit(#[trigger] d[i]) by {
            if i < d.len() - 1 {
                assert(d[i] == decimal(n / 10)[i]);
            }
        }
        assert(n == (n / 10) * 10 + n % 10);
    } else {
        lemma_digit_value(n);
        assert(decimal(n).drop_last() =~= Seq::<char>::empty());
        assert(decimal_value(decimal(n)) == decimal_value(decimal(n).drop_last()) * 10
            + digit_value(decimal(n).last()));
    }
}

/// The default name of a task is `Task_` followed by a string of digits that
/// denotes the task's id; so two tasks with different ids get different
/// default names.
pub proof fn law_default_name_spells_id(id: u64, other: u64)
    ensures
        default_task_name(id).take(5) == seq!['T', 'a', 's', 'k', '_'],
        forall|i: int|
            5 <= i < default_task_name(id).len() ==> is_digit(#[trigger] default_task_name(id)[i]),
        default_task_name(id).len() > 5,
        decimal_value(default_task_name(id).skip(5)) == id,
        default_task_name(id) == default_task_name(other) ==> id == other,
{
    lemma_decimal_denotes(id as nat);
    lemma_decimal_denotes(other as nat);
    let p = seq!['T', 'a', 's', 'k', '_'];
    assert(default_task_name(id).take(5) =~= p);
    assert(default_task_name(id).skip(5) =~= decimal(id as nat));
    assert(default_task_name(other).skip(5) =~= decimal(other as nat));
    assert forall|i: int| 5 <= i < default_task_name(id).len() implies is_digit(
        #[trigger] default_task_name(id)[i],
    ) by {
        assert(default_task_name(id)[i] == decimal(id as nat)[i - 5]);
    }
}

/// The one-character string of a decimal digit.
fn digit_str(d: u64) -> (s: &'static str)
    requires
        d < 10,
    ensures
        s@ == seq![digit_char(d as nat)],
{
    if d == 0 {
        proof {
            reveal_strlit("0");
        }
        "0"
    } else if d == 1 {
        proof {
            reveal_strlit("1");
        }
        "1"
    } else if d == 2 {
        proof {
            reveal_strlit("2");
        }
        "2"
    } else if d == 3 {
        proof {
            reveal_strlit("3");
        }
        "3"
    } else if d == 4 {
        proof {
            reveal_strlit("4");
        }
        "4"
    } else if d == 5 {
        proof {
            reveal_strlit("5");
        }
        "5"
    } else if d == 6 {
        proof {
            reveal_strlit("6");
        }
        "6"
    } else if d == 7 {
        proof {
            reveal_strlit("7");
        }
        "7"
    } else if d == 8 {
        proof {
            reveal_strlit("8");
        }
        "8"
    } else {
        proof {
            reveal_strlit("9");
        }
        "9"
    }
}

/// Appends the decimal notation of `n` to `s`.
fn push_decimal(s: &mut String, n: u64)
    ensures
        final(s)@ == old(s)@ + decimal(n as nat),
    decreases n,
{
    if n >= 10 {
        push_decimal(s, n / 10);
    }
    s.append(digit_str(n % 10));
    proof {
        if n >= 10 {
            assert(old(s)@ + decimal(n as nat) =~= old(s)@ + decimal((n / 10) as nat) + seq![
                digit_char((n % 10) as nat),
            ]);
        } else {
            assert(decimal(n as nat) =~= seq![digit_char((n % 10) as nat)]);
        }
    }
}

/// A task of the scheduler.
pub struct Task {
    task_id: u64,
    task_name: String,
    task_state: TaskState,
}

impl View for Task {
    type V = TaskView;

    closed spec fn view(&self) -> TaskView {
        TaskView { id: self.task_id, name: self.task_name@, state: self.task_state }
    }
}

impl Task {
    /// The task's id.
    pub fn get_id(&self) -> (id: u64)
        ensures
            id == self@.id,
    {
        self.task_id
    }

    /// The task's name.
    pub fn get_name(&self) -> (name: &str)
        ensures
            name@ == self@.name,
    {
        self.task_name.as_str()
    }

    /// Renames the task.
    pub fn set_name(&mut self, name: &str)
        ensures
            final(self)@ == (TaskView { name: name@, ..old(self)@ }),
    {
        self.task_name = String::from_str(name);
    }

    /// The task's state.
    pub fn get_state(&self) -> (state: TaskState)
        ensures
            state == self@.state,
    {
        self.task_state
    }

    /// A new task with id `id`, named `Task_<id>`, in state `Init`.
    pub fn new(id: u64) -> (t: Self)
        ensures
            t@ == (TaskView { id, name: default_task_name(id), state: TaskState::Init }),
            t@.name.take(5) == seq!['T', 'a', 's', 'k', '_'],
            decimal_value(t@.name.skip(5)) == id,
    {
        proof {
            reveal_strlit("Task_");
            assert("Task_"@ =~= seq!['T', 'a', 's', 'k', '_']);
        }
        let mut name = String::from_str("Task_");
        push_decimal(&mut name, id);
        proof {
            law_default_name_spells_id(id, id);
        }
        Task { task_id: id, task_name: name, task_state: TaskState::Init }
    }
}

} // verus!
