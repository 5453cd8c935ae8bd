//! The stepping mechanism and the signal path through the wheel stack.
use vstd::prelude::*;
use crate::rotors::{Rotor, Rotors, Wheel, rotor_notches, wheel_wiring, spells};

verus! {

broadcast use vstd::array::group_array_axioms;

/// One entry of the offset table: the rotation positions whose values shift the contact
/// where the signal passes from one wheel to the next.
#[derive(Debug, Clone, Copy, PartialEq, Eq, Structural)]
pub enum Contact {
    One(usize),
    Two(usize, usize),
}

/// The offset applied at one step of the path, by rotation position.
#[derive(Debug, Clone, Copy, PartialEq, Eq, Structural)]
pub enum Link {
    Add(usize),
    Sub(usize),
    Pair(usize, usize),
    Through,
}

/// The offset table, keyboard side first; the fifth entry only exists in a naval machine.
pub open spec fn contact_at(idx: int) -> Contact {
    if idx == 0 {
        Contact::One(2)
    } else if idx == 1 {
        Contact::Two(1, 2)
    } else if idx == 2 {
        Contact::Two(0, 1)
    } else if idx == 3 {
        Contact::One(0)
    } else {
        Contact::Two(4, 2)
    }
}

/// The offset applied at step `front` of the path. Past the end of the table the table
/// is read backwards with each pair turned round; a single position adds or subtracts
/// by the parity of its place.
#[verifier::opaque]
pub open spec fn link_at(front: int, naval: bool) -> Link {
    let k: int = if naval { 5 } else { 4 };
    let at_end = front > k - 1;
    let idx = front % k;
    let entry = if at_end { contact_at(k - 1 - idx) } else { contact_at(idx) };
    match entry {
        Contact::Two(i, j) => if i == 4 || j == 4 {
            Link::Through
        } else if at_end {
            Link::Pair(j, i)
        } else {
            Link::Pair(i, j)
        },
        Contact::One(i) => {
            let parity = if k > 4 && at_end { idx % 2 == 0 } else { idx % 2 == 1 };
            if parity { Link::Sub(i) } else { Link::Add(i) }
        },
    }
}

/// Brings a value in `-26..52` back to `0..26`.
pub open spec fn wrap(v: int) -> int {
    if v < 0 { v + 26 } else if v >= 26 { v - 26 } else { v }
}

/// The contact that `x` becomes under the offset `l`, with rotation `code`.
pub open spec fn shift(l: Link, x: int, code: [usize; 3]) -> int {
    match l {
        Link::Add(i) => wrap(x + code@[i as int]),
        Link::Sub(i) => wrap(x - code@[i as int]),
        Link::Pair(i, j) => wrap(x + code@[i as int] - code@[j as int]),
        Link::Through => x,
    }
}

/// Number of steps past the first of the path: 6 for three rotating wheels, 8 for four.
pub open spec fn pathway_of(n: int) -> int {
    if n > 4 { 8 } else { 6 }
}

/// The contact that a wiring sends to `y`, that is, the signal read backwards.
pub open spec fn unwire(p: Seq<int>, y: int) -> int {
    choose|j: int| 0 <= j < 26 && p[j] == y
}

/// One step of the path: shift the contact, then pass the wheel at `t`, forwards while
/// the signal moves towards the reflector and backwards after it.
pub open spec fn stage(stack: Seq<Wheel>, code: [usize; 3], t: int, x: int) -> int {
    let n = stack.len() as int;
    let y = shift(link_at(t, n > 4), x, code);
    if t < n {
        wheel_wiring(stack[t])[y]
    } else {
        unwire(wheel_wiring(stack[pathway_of(n) - t]), y)
    }
}

/// The steps `a..b` of the path, in order.
pub open spec fn seg(stack: Seq<Wheel>, code: [usize; 3], a: int, b: int, x: int) -> int
    decreases b - a,
{
    if a >= b {
        x
    } else {
        stage(stack, code, b - 1, seg(stack, code, a, b - 1, x))
    }
}

/// The contact at which a signal entering the stack at `x` leaves it.
pub open spec fn circuit_map(stack: Seq<Wheel>, code: [usize; 3], x: int) -> int {
    let n = stack.len() as int;
    let t = pathway_of(n) + 1;
    shift(link_at(t, n > 4), seg(stack, code, 0, t, x), code)
}

/// A wheel stack: three or four rotating wheels, keyboard end first, then a reflector.
pub open spec fn stack_ok(stack: Seq<Wheel>) -> bool {
    &&& (stack.len() == 4 || stack.len() == 5)
    &&& forall|i: int| 0 <= i < stack.len() - 1 ==> #[trigger] stack[i] is Rotor
    &&& stack[stack.len() - 1] is Reflector
}

/// Every rotation position holds a value in `0..26`.
pub open spec fn code_ok(code: [usize; 3]) -> bool {
    forall|i: int| 0 <= i < 3 ==> #[trigger] code@[i] < 26
}

/// `n` holds the letter of position `pos`.
pub open spec fn notched(n: Seq<char>, pos: int) -> bool {
    exists|k: int| 0 <= k < n.len() && n[k] as int == 65 + pos
}

/// The rotation and carry flag after one key press, given the turnover letters of the
/// middle and the right stepping wheels.
pub open spec fn advance(code: [usize; 3], step: bool, mid: Seq<char>, right: Seq<char>) -> (
    [usize; 3],
    bool,
) {
    let (l, m, r) = (code@[0], code@[1], code@[2]);
    if notched(mid, m as int) && !step {
        ([((l + 1) % 26) as usize, ((m + 1) % 26) as usize, ((r + 1) % 26) as usize], true)
    } else if notched(right, r as int) {
        ([l, ((m + 1) % 26) as usize, ((r + 1) % 26) as usize], notched(mid, m as int))
    } else {
        ([l, m, ((r + 1) % 26) as usize], notched(mid, m as int))
    }
}

/// The cursor of the signal path.
#[derive(Debug, PartialEq, Clone)]
pub struct Index {
    pub front: usize,
    pub back: isize,
}

impl Default for Index {
    fn default() -> (r: Self)
        ensures
            r.front == 0,
            r.back == 0,
    {
        Index { front: 0, back: 0 }
    }
}

/// The stepping state and signal path of one machine.
#[derive(Debug, PartialEq, Clone)]
pub struct Circuit {
    pub code: [usize; 3],
    pub node: Index,
    pub step: bool,
    pub len: usize,
    pub turnovers: Vec<String>,
}

impl Circuit {
    /// The shape of the machine: three or four rotating wheels and a reflector, and a
    /// rotation in `0..26` at every stepping position.
    pub open spec fn wf(&self) -> bool {
        &&& (self.len == 4 || self.len == 5)
        &&& self.turnovers@.len() == self.len - 1
        &&& code_ok(self.code)
    }

    /// The cursor before the first step of a letter.
    pub open spec fn at_start(&self) -> bool {
        self.node.front == 0 && self.node.back == self.len - 2
    }

    /// The cursor where the path of a letter stands: `back` names the wheel that the
    /// return leg passes next.
    pub open spec fn node_ok(&self) -> bool {
        let t = pathway_of(self.len as int);
        &&& self.node.front <= t + 1
        &&& self.node.back == if self.node.front < self.len {
            self.len - 2
        } else {
            t - self.node.front
        }
    }

    /// Turnover letters of the middle stepping wheel.
    pub open spec fn mid_notches(&self) -> Seq<char> {
        self.turnovers@[self.len - 3]@
    }

    /// Turnover letters of the right stepping wheel.
    pub open spec fn right_notches(&self) -> Seq<char> {
        self.turnovers@[self.len - 2]@
    }

    /// A circuit for `rotors`, leftmost first, at rotation `code`.
    pub fn new(rotors: &Vec<Wheel>, code: [usize; 3]) -> (r: Self)
        requires
            rotors@.len() == 3 || rotors@.len() == 4,
            forall|i: int| 0 <= i < rotors@.len() ==> #[trigger] rotors@[i] is Rotor,
            code_ok(code),
        ensures
            r.wf(),
            r.at_start(),
            r.code == code,
            r.step == false,
            r.len == rotors@.len() + 1,
            forall|i: int|
                0 <= i < rotors@.len() ==> #[trigger] r.turnovers@[i]@ == rotor_notches(
                    rotors@[i]->Rotor_0,
                ),
    {
        let mut turnovers: Vec<String> = Vec::new();
        let mut i: usize = 0;
        while i < rotors.len()
            invariant
                i <= rotors@.len(),
                turnovers@.len() == i,
                forall|k: int| 0 <= k < rotors@.len() ==> #[trigger] rotors@[k] is Rotor,
                forall|k: int|
                    0 <= k < i ==> #[trigger] turnovers@[k]@ == rotor_notches(rotors@[k]->Rotor_0),
            decreases rotors@.len() - i,
        {
            turnovers.push(String::from_str(rotors[i].turnovers()));
            i = i + 1;
        }
        let len = rotors.len() + 1;
        let back: isize = if len > 4 { 8 / 2 - 1 } else { 6 / 2 - 1 };
        Circuit { code, node: Index { front: 0, back }, step: false, len, turnovers }
    }

    /// Puts the cursor back before the first step of a letter.
    pub fn reset(&mut self)
        requires
            old(self).wf(),
        ensures
            final(self).at_start(),
            final(self).code == old(self).code,
            final(self).step == old(self).step,
            final(self).len == old(self).len,
            final(self).turnovers == old(self).turnovers,
    {
        let back: isize = if self.len > 4 { 8 / 2 - 1 } else { 6 / 2 - 1 };
        self.node = Index { front: 0, back };
    }

    /// Steps in the path of one letter, less one: 6 with three rotating wheels, 8 with four.
    pub fn pathway(&self) -> (r: u8)
        ensures
            r == pathway_of(self.len as int),
    {
        if self.len > 4 { 8 } else { 6 }
    }

    /// The wheel at which the return leg starts, counted from the keyboard end.
    pub fn stopover(&self) -> (r: u8)
        ensures
            r == pathway_of(self.len as int) / 2 - 1,
    {
        self.pathway() / 2 - 1
    }
}

/// The offset at step `front` of the path.
fn link(front: usize, naval: bool) -> (r: Link)
    ensures
        r == link_at(front as int, naval),
        link_ok(r),
{
    reveal(link_at);
    let k: usize = if naval { 5 } else { 4 };
    let at_end = front > k - 1;
    let idx = front % k;
    let pos = if at_end { k - 1 - idx } else { idx };
    let entry = if pos == 0 {
        Contact::One(2)
    } else if pos == 1 {
        Contact::Two(1, 2)
    } else if pos == 2 {
        Contact::Two(0, 1)
    } else if pos == 3 {
        Contact::One(0)
    } else {
        Contact::Two(4, 2)
    };
    match entry {
        Contact::Two(i, j) => if i == 4 || j == 4 {
            Link::Through
        } else if at_end {
            Link::Pair(j, i)
        } else {
            Link::Pair(i, j)
        },
        Contact::One(i) => {
            let parity = if k > 4 && at_end { idx % 2 == 0 } else { idx % 2 == 1 };
            if parity { Link::Sub(i) } else { Link::Add(i) }
        },
    }
}

/// Whether `s` holds the letter of position `pos`.
fn holds_letter(s: &str, pos: usize) -> (r: bool)
    requires
        pos < 26,
    ensures
        r == notched(s@, pos as int),
{
    let n = s.unicode_len();
    let mut i: usize = 0;
    while i < n
        invariant
            n == s@.len(),
            i <= n,
            pos < 26,
            forall|k: int| 0 <= k < i ==> s@[k] as int != 65 + pos,
        decreases n - i,
    {
        if s.get_char(i) as u32 == 65 + (pos as u32) {
            assert(s@[i as int] as int == 65 + pos as int);
            return true;
        }
        i = i + 1;
    }
    false
}

/// The place in `s` of the letter `c`, where `s` spells a permutation.
fn seek(s: &str, c: char, p: Ghost<Seq<int>>, q: Ghost<Seq<int>>) -> (j: usize)
    requires
        spells(s@, p@),
        crate::rotors::inverse_pair(p@, q@),
        'A' <= c <= 'Z',
    ensures
        j < 26,
        p@[j as int] == c as int - 65,
        j == unwire(p@, c as int - 65),
{
    let y = Ghost(c as int - 65);
    assert(p@[q@[y@]] == y@);
    assert(s@[q@[y@]] as int == 65 + p@[q@[y@]]);
    let mut i: usize = 0;
    while i < 26
        invariant
            spells(s@, p@),
            crate::rotors::inverse_pair(p@, q@),
            i <= 26,
            'A' <= c <= 'Z',
            y@ == c as int - 65,
            s@[q@[y@]] == c,
            0 <= q@[y@] < 26,
            forall|k: int| 0 <= k < i ==> s@[k] != c,
        decreases 26 - i,
    {
        if s.get_char(i) == c {
            assert(s@[i as int] as int == 65 + p@[i as int]);
            let ghost u = unwire(p@, y@);
            assert(p@[q@[y@]] == y@);
            assert(q@[p@[u]] == u);
            assert(q@[p@[i as int]] == i);
            return i;
        }
        i = i + 1;
    }
    assert(s@[q@[y@]] != c);
    0
}

impl Circuit {
    /// The contact, `0..26`, that the letter `a` reaches through the offset at the
    /// current step of the path, with rotation `b`.
    pub fn signal(&self, a: u32, b: [usize; 3]) -> (r: isize)
        requires
            65 <= a <= 90,
            code_ok(b),
        ensures
            r == shift(link_at(self.node.front as int, self.len > 4), a as int - 65, b),
            0 <= r < 26,
    {
        let naval = self.stopover() % 2 == 1;
        let alpha = (a - 65) as isize;
        let sig: isize = match link(self.node.front, naval) {
            Link::Through => alpha,
            Link::Pair(i, j) => alpha + (b[i] as isize - b[j] as isize),
            Link::Sub(i) => alpha - b[i] as isize,
            Link::Add(i) => alpha + b[i] as isize,
        };
        if sig < 0 {
            sig + 26
        } else if sig >= 26 {
            sig - 26
        } else {
            sig
        }
    }

    /// Moves the cursor one step along the path; false once the path is done.
    pub fn node_step(&mut self) -> (r: bool)
        requires
            old(self).wf(),
            old(self).node_ok(),
        ensures
            final(self).node_ok(),
            final(self).code == old(self).code,
            final(self).step == old(self).step,
            final(self).len == old(self).len,
            final(self).turnovers == old(self).turnovers,
            old(self).node.front <= pathway_of(old(self).len as int) ==> final(self).node.front
                == old(self).node.front + 1,
            old(self).node.front > pathway_of(old(self).len as int) ==> final(self).node
                == old(self).node,
            r == (final(self).node.front <= pathway_of(old(self).len as int)),
    {
        if self.node.front <= self.pathway() as usize {
            if !(self.node.front < self.len) {
                self.node.back = self.node.back - 1;
            }
            self.node.front = self.node.front + 1;
        }
        self.node.front <= self.pathway() as usize
    }

    /// Advances the rotation by one key press, carrying with the double step of the
    /// middle wheel.
    pub fn accrue(&mut self)
        requires
            old(self).wf(),
        ensures
            final(self).wf(),
            advance(old(self).code, old(self).step, old(self).mid_notches(), old(self).right_notches())
                == (final(self).code, final(self).step),
            final(self).node == old(self).node,
            final(self).len == old(self).len,
            final(self).turnovers == old(self).turnovers,
    {
        let c0 = self.code[0];
        let c1 = self.code[1];
        let c2 = self.code[2];
        let at_mid = holds_letter(self.turnovers[self.len - 3].as_str(), c1);
        if !at_mid {
            self.step = false;
        }
        if at_mid && !self.step {
            self.code = [(c0 + 1) % 26, (c1 + 1) % 26, (c2 + 1) % 26];
            self.step = true;
            return;
        }
        let at_right = holds_letter(self.turnovers[self.len - 2].as_str(), c2);
        if at_right {
            self.code = [c0, (c1 + 1) % 26, (c2 + 1) % 26];
            return;
        }
        self.code = [c0, c1, (c2 + 1) % 26];
    }

    /// Runs the letter `ch` through `rotors`, the wheel stack keyboard end first and the
    /// reflector last, and leaves the cursor at the end of the path.
    pub fn scramble(&mut self, ch: &char, rotors: &Vec<Wheel>) -> (r: char)
        requires
            old(self).wf(),
            old(self).at_start(),
            stack_ok(rotors@),
            rotors@.len() == old(self).len,
            'A' <= *ch <= 'Z',
        ensures
            'A' <= r <= 'Z',
            r as int - 65 == seg(
                rotors@,
                old(self).code,
                0,
                pathway_of(old(self).len as int) + 1,
                *ch as int - 65,
            ),
            final(self).node.front == pathway_of(old(self).len as int) + 1,
            final(self).node_ok(),
            final(self).code == old(self).code,
            final(self).step == old(self).step,
            final(self).len == old(self).len,
            final(self).turnovers == old(self).turnovers,
    {
        let mut pch: char = *ch;
        let ghost x0 = *ch as int - 65;
        let ghost t = pathway_of(self.len as int);
        let ghost code0 = self.code;
        let ghost step0 = self.step;
        let ghost turnovers0 = self.turnovers;
        let ghost n = self.len as int;
        loop
            invariant_except_break
                self.node.front <= t,
            invariant
                self.wf(),
                self.node_ok(),
                self.len == n,
                t == pathway_of(n),
                self.code == code0,
                self.step == step0,
                self.turnovers == turnovers0,
                stack_ok(rotors@),
                rotors@.len() == n,
                'A' <= pch <= 'Z',
                pch as int - 65 == seg(rotors@, code0, 0, self.node.front as int, x0),
            ensures
                self.node.front == t + 1,
            decreases t + 1 - self.node.front,
        {
            let ghost f = self.node.front as int;
            if self.node.front < self.len {
                let w = rotors[self.node.front].alpha();
                let k = self.signal(pch as u32, self.code) as usize;
                proof {
                    match rotors@[f] {
                        Wheel::Rotor(r) => crate::rotors::lemma_rotor_permutes(r),
                        Wheel::Reflector(r) => crate::rotors::lemma_reflector_pairs(r),
                    }
                }
                pch = w.get_char(k);
            } else {
                let k = self.signal(pch as u32, self.code);
                let tch = ((k as u8) + 65) as char;
                let b = self.node.back as usize;
                let w = rotors[b].alpha();
                let ghost r = rotors@[b as int]->Rotor_0;
                proof {
                    crate::rotors::lemma_rotor_permutes(r);
                }
                let j = seek(
                    w,
                    tch,
                    Ghost(crate::rotors::rotor_wiring(r)),
                    Ghost(crate::rotors::rotor_unwiring(r)),
                );
                pch = ((j as u8) + 65) as char;
            }
            assert(pch as int - 65 == stage(rotors@, code0, f, seg(rotors@, code0, 0, f, x0)));
            if !self.node_step() {
                break;
            }
        }
        pch
    }
}

impl Default for Circuit {
    fn default() -> (r: Self)
        ensures
            r.wf(),
            r.at_start(),
            r.code == [0usize, 0, 0],
            r.step == false,
            r.len == 4,
            r.mid_notches() == seq!['E'],
            r.right_notches() == seq!['V'],
    {
        let rotors = Rotors::default();
        Circuit::new(&rotors.rotors, [0, 0, 0])
    }
}

/// The offset that undoes `l`.
pub open spec fn mirror(l: Link) -> Link {
    match l {
        Link::Add(i) => Link::Sub(i),
        Link::Sub(i) => Link::Add(i),
        Link::Pair(i, j) => Link::Pair(j, i),
        Link::Through => Link::Through,
    }
}

/// The offset names only the three stepping positions.
pub open spec fn link_ok(l: Link) -> bool {
    match l {
        Link::Add(i) => i < 3,
        Link::Sub(i) => i < 3,
        Link::Pair(i, j) => i < 3 && j < 3,
        Link::Through => true,
    }
}

/// The `i`-th step counted back from the end of the path undoes the offset of the
/// `i`-th step from its start.
pub proof fn lemma_link_mirror(n: int, t: int)
    requires
        n == 4 || n == 5,
        0 <= t < n,
    ensures
        link_ok(link_at(t, n > 4)),
        link_at(pathway_of(n) + 1 - t, n > 4) == mirror(link_at(t, n > 4)),
{
    reveal(link_at);
    if n == 4 {
        if t == 0 {
        } else if t == 1 {
        } else if t == 2 {
        } else {
        }
    } else {
        if t == 0 {
        } else if t == 1 {
        } else if t == 2 {
        } else if t == 3 {
        } else {
        }
    }
}

proof fn lemma_shift_mirror(l: Link, code: [usize; 3], x: int)
    requires
        link_ok(l),
        code_ok(code),
        0 <= x < 26,
    ensures
        0 <= shift(l, x, code) < 26,
        0 <= shift(mirror(l), x, code) < 26,
        shift(mirror(l), shift(l, x, code), code) == x,
        shift(l, shift(mirror(l), x, code), code) == x,
{
}

proof fn lemma_unwire(p: Seq<int>, q: Seq<int>, y: int)
    requires
        crate::rotors::inverse_pair(p, q),
        0 <= y < 26,
    ensures
        unwire(p, y) == q[y],
{
    assert(p[q[y]] == y);
    let u = unwire(p, y);
    assert(q[p[u]] == u);
}

proof fn lemma_seg_front(stack: Seq<Wheel>, code: [usize; 3], a: int, b: int, x: int)
    requires
        a < b,
    ensures
        seg(stack, code, a, b, x) == seg(stack, code, a + 1, b, stage(stack, code, a, x)),
    decreases b - a,
{
    let s = stage(stack, code, a, x);
    assert(seg(stack, code, a, a, x) == x);
    if a + 1 < b {
        lemma_seg_front(stack, code, a, b - 1, x);
        assert(seg(stack, code, a, b, x) == stage(stack, code, b - 1, seg(stack, code, a, b - 1, x)));
        assert(seg(stack, code, a + 1, b, s) == stage(stack, code, b - 1, seg(stack, code, a + 1, b - 1, s)));
    } else {
        assert(seg(stack, code, a + 1, b, s) == s);
    }
}

proof fn lemma_kernel_last(stack: Seq<Wheel>, code: [usize; 3], x: int)
    requires
        stack_ok(stack),
    ensures
        kernel(stack, code, stack.len() - 1, x) == shift(
            link_at(stack.len() as int, stack.len() > 4),
            wheel_wiring(stack[stack.len() - 1])[shift(link_at(stack.len() - 1, stack.len() > 4), x, code)],
            code,
        ),
{
    let n = stack.len() as int;
    assert(pathway_of(n) + 1 - (n - 1) == n);
    assert(seg(stack, code, n - 1, n - 1, x) == x);
    assert(seg(stack, code, n - 1, n, x) == stage(stack, code, n - 1, x));
}

proof fn lemma_kernel_unfold(stack: Seq<Wheel>, code: [usize; 3], t: int, x: int)
    requires
        stack_ok(stack),
        0 <= t < stack.len() - 1,
    ensures
        kernel(stack, code, t, x) == shift(
            link_at(pathway_of(stack.len() as int) + 1 - t, stack.len() > 4),
            unwire(wheel_wiring(stack[t]), kernel(stack, code, t + 1, stage(stack, code, t, x))),
            code,
        ),
{
    let n = stack.len() as int;
    let e = pathway_of(n) + 1 - t;
    assert(seg(stack, code, t, e, x) == stage(stack, code, e - 1, seg(stack, code, t, e - 1, x)));
    lemma_seg_front(stack, code, t, e - 1, x);
    assert(pathway_of(n) - (e - 1) == t);
}

/// The part of the path from step `t` to its mirror step, with the offset after it.
pub open spec fn kernel(stack: Seq<Wheel>, code: [usize; 3], t: int, x: int) -> int {
    let n = stack.len() as int;
    let e = pathway_of(n) + 1 - t;
    shift(link_at(e, n > 4), seg(stack, code, t, e, x), code)
}

proof fn lemma_kernel(stack: Seq<Wheel>, code: [usize; 3], t: int, x: int)
    requires
        stack_ok(stack),
        code_ok(code),
        0 <= t < stack.len(),
        0 <= x < 26,
    ensures
        0 <= kernel(stack, code, t, x) < 26,
        kernel(stack, code, t, kernel(stack, code, t, x)) == x,
        kernel(stack, code, t, x) != x,
    decreases stack.len() - t,
{
    let n = stack.len() as int;
    let l = link_at(t, n > 4);
    lemma_link_mirror(n, t);
    lemma_shift_mirror(l, code, x);
    assert(mirror(mirror(l)) == l);
    if t == n - 1 {
        let f = stack[t]->Reflector_0;
        crate::rotors::lemma_reflector_pairs(f);
        let rw = crate::rotors::reflector_wiring(f);
        lemma_kernel_last(stack, code, x);
        let u = kernel(stack, code, t, x);
        lemma_kernel_last(stack, code, u);
        lemma_shift_mirror(l, code, u);
        lemma_shift_mirror(mirror(l), code, rw[shift(l, x, code)]);
    } else {
        let r = stack[t]->Rotor_0;
        crate::rotors::lemma_rotor_permutes(r);
        let p = crate::rotors::rotor_wiring(r);
        let q = crate::rotors::rotor_unwiring(r);
        let ax = stage(stack, code, t, x);
        assert(ax == p[shift(l, x, code)]);
        let v = kernel(stack, code, t + 1, ax);
        lemma_kernel(stack, code, t + 1, ax);
        lemma_unwire(p, q, v);
        lemma_kernel_unfold(stack, code, t, x);
        let u = kernel(stack, code, t, x);
        assert(u == shift(mirror(l), q[v], code));
        lemma_shift_mirror(l, code, u);
        lemma_shift_mirror(mirror(l), code, q[v]);
        let au = stage(stack, code, t, u);
        assert(au == p[shift(l, u, code)]);
        assert(au == v);
        lemma_kernel_unfold(stack, code, t, u);
        lemma_unwire(p, q, ax);
    }
}

/// For a fixed rotation the signal path is its own inverse, and no contact is sent to
/// itself.
pub proof fn lemma_path_involution(stack: Seq<Wheel>, code: [usize; 3], x: int)
    requires
        stack_ok(stack),
        code_ok(code),
        0 <= x < 26,
    ensures
        0 <= circuit_map(stack, code, x) < 26,
        circuit_map(stack, code, circuit_map(stack, code, x)) == x,
        circuit_map(stack, code, x) != x,
{
    lemma_kernel(stack, code, 0, x);
}

/// The double step: with the right wheel at its turnover and the middle wheel one short
/// of its own, the first key press turns the middle wheel, and the second turns it again
/// together with the left wheel.
pub proof fn lemma_double_step(code: [usize; 3], step: bool, mid: Seq<char>, right: Seq<char>)
    requires
        code_ok(code),
        notched(right, code@[2] as int),
        !notched(mid, code@[1] as int),
        notched(mid, (code@[1] + 1) % 26),
    ensures
        ({
            let (c1, s1) = advance(code, step, mid, right);
            let (c2, s2) = advance(c1, s1, mid, right);
            &&& c1@[0] == code@[0]
            &&& c1@[1] == (code@[1] + 1) % 26
            &&& c2@[0] == (code@[0] + 1) % 26
            &&& c2@[1] == (code@[1] + 2) % 26
        }),
{
}

} // verus!
