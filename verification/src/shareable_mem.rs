//! Guest RAM that another process can map.
//!
//! Each region of guest RAM is a named shared-memory object of the system. A
//! `GuestRamShm` says which system call its creation needs next; whoever makes the
//! calls tells it what they returned.

use vstd::prelude::*;
use vstd::string::StringExecFns;

verus! {

/// The access that is given to a new object: its owner may read and write it.
pub const OBJECT_MODE: u32 = 0o600;

/// The digit that stands for a number below ten.
pub open spec fn digit(d: nat) -> char {
    ('0' as nat + d) as char
}

/// A number in decimal notation.
pub open spec fn decimal(n: nat) -> Seq<char>
    decreases n,
{
    if n < 10 {
        seq![digit(n)]
    } else {
        decimal(n / 10).push(digit(n % 10))
    }
}

/// The name of the object behind region `idx` of the process `pid`.
pub open spec fn region_name_of(pid: nat, idx: nat) -> Seq<char> {
    "/conduit-guest-ram-"@ + decimal(pid) + "-"@ + decimal(idx)
}

/// Appends one digit.
fn push_digit(text: &mut String, d: u64)
    requires
        d < 10,
    ensures
        final(text)@ == old(text)@.push(digit(d as nat)),
{
    proof {
        reveal_strlit("0");
        reveal_strlit("1");
        reveal_strlit("2");
        reveal_strlit("3");
        reveal_strlit("4");
        reveal_strlit("5");
        reveal_strlit("6");
        reveal_strlit("7");
        reveal_strlit("8");
        reveal_strlit("9");
    }
    let figure: &str = match d {
        0 => "0",
        1 => "1",
        2 => "2",
        3 => "3",
        4 => "4",
        5 => "5",
        6 => "6",
        7 => "7",
        8 => "8",
        _ => "9",
    };
    assert(figure@ =~= seq![digit(d as nat)]);
    text.append(figure);
    assert(text@ =~= old(text)@.push(digit(d as nat)));
}

/// Appends a number in decimal notation.
fn push_decimal(text: &mut String, n: u64)
    ensures
        final(text)@ == old(text)@ + decimal(n as nat),
    decreases n,
{
    if n >= 10 {
        push_decimal(text, n / 10);
    }
    push_digit(text, n % 10);
    assert(text@ =~= old(text)@ + decimal(n as nat));
}

/// The name of the object behind region `idx` of the process `pid`.
pub fn region_name(pid: u32, idx: usize) -> (name: String)
    ensures
        name@ == region_name_of(pid as nat, idx as nat),
        name@ == "/conduit-guest-ram-"@ + decimal(pid as nat) + "-"@ + decimal(idx as nat),
{
    let mut name = String::from_str("/conduit-guest-ram-");
    push_decimal(&mut name, pid as u64);
    name.append("-");
    push_decimal(&mut name, idx as u64);
    name
}

/// What the creation of an object needs done.
#[derive(Clone, Copy, Debug, PartialEq, Eq, Structural)]
pub enum ShmStep {
    /// Unlink the name, in case an earlier process has left an object behind.
    Unlink,
    /// Create an object of that name, which must not exist yet, and open it for
    /// reading and writing.
    CreateExclusive { mode: u32 },
    /// Give the object its length.
    Truncate { fd: i32, length: i64 },
    /// Close the descriptor and unlink the name.
    Discard { fd: i32, errno: i32 },
    /// Nothing more: the descriptor belongs to the caller.
    Finish { fd: i32 },
    /// Nothing more: there is no object, for this reason.
    Fail { errno: i32 },
}

/// What is needed once a system call has returned `status`, which is negative if it
/// failed; `errno` is then the reason. How unlinking and closing went does not matter.
pub open spec fn next_step(size: usize, step: ShmStep, status: i32, errno: i32) -> ShmStep {
    match step {
        ShmStep::Unlink => ShmStep::CreateExclusive { mode: OBJECT_MODE },
        ShmStep::CreateExclusive { .. } => if status < 0 {
            ShmStep::Fail { errno }
        } else {
            ShmStep::Truncate { fd: status, length: size as i64 }
        },
        ShmStep::Truncate { fd, .. } => if status < 0 {
            ShmStep::Discard { fd, errno }
        } else {
            ShmStep::Finish { fd }
        },
        ShmStep::Discard { errno: reason, .. } => ShmStep::Fail { errno: reason },
        ShmStep::Finish { fd } => ShmStep::Finish { fd },
        ShmStep::Fail { errno: reason } => ShmStep::Fail { errno: reason },
    }
}

/// The creation of the object behind one region of guest RAM.
pub struct GuestRamShm {
    name: String,
    size: usize,
    step: ShmStep,
}

/// Starts the creation of an object of `size` bytes for region `idx` of guest RAM.
pub fn create_guest_ram_shm(pid: u32, idx: usize, size: usize) -> (creation: GuestRamShm)
    ensures
        creation.object_name() == region_name_of(pid as nat, idx as nat),
        creation.object_size() == size,
        creation.pending() == ShmStep::Unlink,
{
    GuestRamShm { name: region_name(pid, idx), size, step: ShmStep::Unlink }
}

impl GuestRamShm {
    pub closed spec fn object_name(&self) -> Seq<char> {
        self.name@
    }

    pub closed spec fn object_size(&self) -> usize {
        self.size
    }

    /// What needs to be done.
    pub closed spec fn pending(&self) -> ShmStep {
        self.step
    }

    /// The object's name.
    pub fn name(&self) -> (name: &String)
        ensures
            name@ == self.object_name(),
    {
        &self.name
    }

    /// What is to be done next.
    pub fn step(&self) -> (step: ShmStep)
        ensures
            step == self.pending(),
    {
        self.step
    }

    /// Goes on, knowing what the system call returned.
    pub fn advance(&mut self, status: i32, errno: i32)
        ensures
            final(self).object_name() == old(self).object_name(),
            final(self).object_size() == old(self).object_size(),
            final(self).pending() == next_step(
                old(self).object_size(),
                old(self).pending(),
                status,
                errno,
            ),
    {
        self.step = match self.step {
            ShmStep::Unlink => ShmStep::CreateExclusive { mode: OBJECT_MODE },
            ShmStep::CreateExclusive { .. } => if status < 0 {
                ShmStep::Fail { errno }
            } else {
                ShmStep::Truncate { fd: status, length: self.size as i64 }
            },
            ShmStep::Truncate { fd, .. } => if status < 0 {
                ShmStep::Discard { fd, errno }
            } else {
                ShmStep::Finish { fd }
            },
            ShmStep::Discard { errno: reason, .. } => ShmStep::Fail { errno: reason },
            ShmStep::Finish { fd } => ShmStep::Finish { fd },
            ShmStep::Fail { errno: reason } => ShmStep::Fail { errno: reason },
        };
    }
}

/// What the creation needs after the first `replies` have come in.
pub open spec fn step_after(size: usize, replies: Seq<(i32, i32)>) -> ShmStep
    decreases replies.len(),
{
    if replies.len() == 0 {
        ShmStep::Unlink
    } else {
        next_step(
            size,
            step_after(size, replies.drop_last()),
            replies.last().0,
            replies.last().1,
        )
    }
}

/// Decimal notation consists of digits.
proof fn lemma_decimal_digits(n: nat)
    ensures
        decimal(n).len() > 0,
        forall|i: int| 0 <= i < decimal(n).len() ==> '0' <= #[trigger] decimal(n)[i] <= '9',
    decreases n,
{
    if n >= 10 {
        lemma_decimal_digits(n / 10);
    }
}

/// Different numbers look different.
proof fn lemma_decimal_injective(a: nat, b: nat)
    requires
        decimal(a) == decimal(b),
    ensures
        a == b,
    decreases a,
{
    lemma_decimal_digits(a / 10);
    lemma_decimal_digits(b / 10);
    assert(decimal(a).last() == digit(a % 10));
    assert(decimal(b).last() == digit(b % 10));
    if a >= 10 && b >= 10 {
        assert(decimal(a).drop_last() =~= decimal(a / 10));
        assert(decimal(b).drop_last() =~= decimal(b / 10));
        lemma_decimal_injective(a / 10, b / 10);
    }
}

/// How numbers are written: those below ten as one of the characters from 0 to 9, and a
/// larger one as its tenth followed by the figure for what is left.
pub proof fn law_decimal_goes_by_figures(n: nat, d: nat)
    requires
        d < 10,
    ensures
        decimal(d) == seq![((48 + d) as char)],
        n > 0 ==> decimal(10 * n + d) == decimal(n).push((48 + d) as char),
{
    if n > 0 {
        assert((10 * n + d) / 10 == n && (10 * n + d) % 10 == d);
    }
}

/// The value that decimal notation has, figure by figure.
pub open spec fn value_of(figures: Seq<char>) -> nat
    decreases figures.len(),
{
    if figures.len() == 0 {
        0
    } else {
        (10 * value_of(figures.drop_last()) + (figures.last() as nat - 48)) as nat
    }
}

/// Decimal notation can be read back, consists of figures, and has no 0 in front except
/// for zero itself.
pub proof fn law_decimal_reads_back(n: nat)
    ensures
        value_of(decimal(n)) == n,
        decimal(n).len() > 0,
        forall|i: int|
            0 <= i < decimal(n).len() ==> 48 <= (#[trigger] decimal(n)[i]) as nat <= 57,
        n > 0 ==> decimal(n)[0] != '0',
    decreases n,
{
    reveal_with_fuel(value_of, 2);
    if n >= 10 {
        law_decimal_reads_back(n / 10);
        assert(decimal(n).drop_last() =~= decimal(n / 10));
        assert(decimal(n)[0] == decimal(n / 10)[0]);
    } else {
        assert(decimal(n).drop_last() =~= Seq::empty());
    }
}

/// The name of a region is a fixed beginning, the process and the region's number.
pub proof fn law_region_name_is_spelled_out(pid: nat, idx: nat)
    ensures
        region_name_of(pid, idx) == "/conduit-guest-ram-"@ + decimal(pid) + "-"@ + decimal(idx),
{
}

/// Two regions never share a name, be it in one process or in two.
pub proof fn law_region_names_are_distinct(pid1: nat, idx1: nat, pid2: nat, idx2: nat)
    requires
        region_name_of(pid1, idx1) == region_name_of(pid2, idx2),
    ensures
        pid1 == pid2,
        idx1 == idx2,
{
    reveal_strlit("-");
    let head = "/conduit-guest-ram-"@;
    let p1 = decimal(pid1);
    let p2 = decimal(pid2);
    let i1 = decimal(idx1);
    let i2 = decimal(idx2);
    let name1 = region_name_of(pid1, idx1);
    let name2 = region_name_of(pid2, idx2);
    lemma_decimal_digits(pid1);
    lemma_decimal_digits(pid2);
    let n = head.len() as int;
    assert(name1[n + p1.len()] == '-');
    assert(name2[n + p2.len()] == '-');
    if p1.len() < p2.len() {
        assert(name2[n + p1.len()] == p2[p1.len() as int]);
    } else if p2.len() < p1.len() {
        assert(name1[n + p2.len()] == p1[p2.len() as int]);
    }
    assert(p1 =~= name1.subrange(n, n + p1.len()));
    assert(p2 =~= name2.subrange(n, n + p2.len()));
    lemma_decimal_injective(pid1, pid2);
    assert(i1 =~= name1.skip(n + p1.len() + 1));
    assert(i2 =~= name2.skip(n + p2.len() + 1));
    lemma_decimal_injective(idx1, idx2);
}

/// A name can be handed to the system as it is: no character of it is NUL.
pub proof fn law_region_name_has_no_nul(pid: nat, idx: nat)
    ensures
        !region_name_of(pid, idx).contains('\0'),
{
    reveal_strlit("/conduit-guest-ram-");
    reveal_strlit("-");
    lemma_decimal_digits(pid);
    lemma_decimal_digits(idx);
    let name = region_name_of(pid, idx);
    let head = "/conduit-guest-ram-"@;
    let n = head.len() as int;
    let p = decimal(pid).len() as int;
    assert forall|i: int| 0 <= i < name.len() implies name[i] != '\0' by {
        if i < n {
            assert(name[i] == head[i]);
        } else if i < n + p {
            assert(name[i] == decimal(pid)[i - n]);
        } else if i > n + p {
            assert(name[i] == decimal(idx)[i - n - p - 1]);
        }
    }
}

/// How a creation goes depends on two calls only, the second and the third: it
/// succeeds, with the descriptor that opening returned, if neither failed, and
/// fails for the reason of the first of them that did. An object that could not be
/// given its length is discarded before the creation fails.
pub proof fn law_creation_outcome(size: usize, replies: Seq<(i32, i32)>)
    requires
        replies.len() == 4,
    ensures
        step_after(size, replies.take(0)) == ShmStep::Unlink,
        step_after(size, replies.take(1)) == (ShmStep::CreateExclusive { mode: OBJECT_MODE }),
        replies[1].0 < 0 ==> {
            &&& step_after(size, replies.take(2)) == (ShmStep::Fail { errno: replies[1].1 })
            &&& step_after(size, replies) == (ShmStep::Fail { errno: replies[1].1 })
        },
        replies[1].0 >= 0 ==> step_after(size, replies.take(2)) == (ShmStep::Truncate {
            fd: replies[1].0,
            length: size as i64,
        }),
        replies[1].0 >= 0 && replies[2].0 < 0 ==> {
            &&& step_after(size, replies.take(3)) == (ShmStep::Discard {
                fd: replies[1].0,
                errno: replies[2].1,
            })
            &&& step_after(size, replies) == (ShmStep::Fail { errno: replies[2].1 })
        },
        replies[1].0 >= 0 && replies[2].0 >= 0 ==> step_after(size, replies) == (ShmStep::Finish {
            fd: replies[1].0,
        }),
{
    assert(replies.take(4) =~= replies);
    assert(replies.take(1).drop_last() =~= replies.take(0));
    assert(replies.take(2).drop_last() =~= replies.take(1));
    assert(replies.take(3).drop_last() =~= replies.take(2));
    assert(replies.take(4).drop_last() =~= replies.take(3));
}

/// What each step of a creation rests on. Whatever became of unlinking, an object is
/// created that only its owner may use; it is given the length that was asked for; one
/// that did not get it is discarded. The descriptor is at each step the one that
/// creating it returned, and the reason for failing that of the call that failed.
pub proof fn law_each_creation_step_has_its_cause(size: usize, replies: Seq<(i32, i32)>)
    ensures
        replies.len() == 0 <==> step_after(size, replies) is Unlink,
        replies.len() > 0 ==> ({
            let before = step_after(size, replies.drop_last());
            let status = replies.last().0;
            let errno = replies.last().1;
            match step_after(size, replies) {
                ShmStep::Unlink => false,
                ShmStep::CreateExclusive { mode } => mode == 0o600 && before is Unlink,
                ShmStep::Truncate { fd, length } => before is CreateExclusive && status >= 0 && fd
                    == status && (size <= i64::MAX ==> length == size),
                ShmStep::Discard { fd, errno: reason } => status < 0 && reason == errno && (
                before matches ShmStep::Truncate { fd: opened, .. } && fd == opened),
                ShmStep::Finish { fd } => {
                    ||| status >= 0 && (before matches ShmStep::Truncate { fd: opened, .. } && fd
                        == opened)
                    ||| before == (ShmStep::Finish { fd })
                },
                ShmStep::Fail { errno: reason } => {
                    ||| before is CreateExclusive && status < 0 && reason == errno
                    ||| before matches ShmStep::Discard { errno: first, .. } && reason == first
                    ||| before == (ShmStep::Fail { errno: reason })
                },
            }
        }),
{
}

} // verus!
