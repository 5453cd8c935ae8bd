//! The wheel catalogue: the wiring of every rotating wheel and reflector, and the
//! letters at which a rotating wheel carries its neighbour along.
use vstd::prelude::*;

verus! {

/// A rotating wheel. `BETA` and `GAMMA` are the thin wheels of a naval machine.
#[derive(Debug, Clone, Copy, PartialEq, Eq, Structural)]
pub enum Rotor {
    I,
    II,
    III,
    IV,
    V,
    VI,
    VII,
    VIII,
    BETA,
    GAMMA,
}

/// The fixed wheel that sends the signal back through the stack.
#[derive(Debug, Clone, Copy, PartialEq, Eq, Structural)]
pub enum Reflector {
    UKWB,
    UKWC,
    BTHIN,
    CTHIN,
}

/// Wiring of each rotating wheel: entry `i` is the contact that plain contact `i` is wired to.
pub open spec fn rotor_wiring(r: Rotor) -> Seq<int> {
    match r {
        Rotor::I => seq![4, 10, 12, 5, 11, 6, 3, 16, 21, 25, 13, 19, 14, 22, 24, 7, 23, 20, 18, 15, 0, 8, 1, 17, 2, 9],
        Rotor::II => seq![0, 9, 3, 10, 18, 8, 17, 20, 23, 1, 11, 7, 22, 19, 12, 2, 16, 6, 25, 13, 15, 24, 5, 21, 14, 4],
        Rotor::III => seq![1, 3, 5, 7, 9, 11, 2, 15, 17, 19, 23, 21, 25, 13, 24, 4, 8, 22, 6, 0, 10, 12, 20, 18, 16, 14],
        Rotor::IV => seq![4, 18, 14, 21, 15, 25, 9, 0, 24, 16, 20, 8, 17, 7, 23, 11, 13, 5, 19, 6, 10, 3, 2, 12, 22, 1],
        Rotor::V => seq![21, 25, 1, 17, 6, 8, 19, 24, 20, 15, 18, 3, 13, 7, 11, 23, 0, 22, 12, 9, 16, 14, 5, 4, 2, 10],
        Rotor::VI => seq![9, 15, 6, 21, 14, 20, 12, 5, 24, 16, 1, 4, 13, 7, 25, 17, 3, 10, 0, 18, 23, 11, 8, 2, 19, 22],
        Rotor::VII => seq![13, 25, 9, 7, 6, 17, 2, 23, 12, 24, 18, 22, 1, 14, 20, 5, 0, 8, 21, 11, 15, 4, 10, 16, 3, 19],
        Rotor::VIII => seq![5, 10, 16, 7, 19, 11, 23, 14, 2, 1, 9, 18, 15, 3, 25, 17, 0, 12, 4, 22, 13, 8, 20, 24, 6, 21],
        Rotor::BETA => seq![11, 4, 24, 9, 21, 2, 13, 8, 23, 22, 15, 1, 16, 12, 3, 17, 19, 0, 10, 25, 6, 5, 20, 7, 14, 18],
        Rotor::GAMMA => seq![5, 18, 14, 10, 0, 13, 20, 4, 17, 7, 12, 1, 19, 8, 24, 2, 22, 11, 16, 15, 25, 23, 21, 6, 9, 3],
    }
}

/// The inverse of `rotor_wiring`, written out.
pub open spec fn rotor_unwiring(r: Rotor) -> Seq<int> {
    match r {
        Rotor::I => seq![20, 22, 24, 6, 0, 3, 5, 15, 21, 25, 1, 4, 2, 10, 12, 19, 7, 23, 18, 11, 17, 8, 13, 16, 14, 9],
        Rotor::II => seq![0, 9, 15, 2, 25, 22, 17, 11, 5, 1, 3, 10, 14, 19, 24, 20, 16, 6, 4, 13, 7, 23, 12, 8, 21, 18],
        Rotor::III => seq![19, 0, 6, 1, 15, 2, 18, 3, 16, 4, 20, 5, 21, 13, 25, 7, 24, 8, 23, 9, 22, 11, 17, 10, 14, 12],
        Rotor::IV => seq![7, 25, 22, 21, 0, 17, 19, 13, 11, 6, 20, 15, 23, 16, 2, 4, 9, 12, 1, 18, 10, 3, 24, 14, 8, 5],
        Rotor::V => seq![16, 2, 24, 11, 23, 22, 4, 13, 5, 19, 25, 14, 18, 12, 21, 9, 20, 3, 10, 6, 8, 0, 17, 15, 7, 1],
        Rotor::VI => seq![18, 10, 23, 16, 11, 7, 2, 13, 22, 0, 17, 21, 6, 12, 4, 1, 9, 15, 19, 24, 5, 3, 25, 20, 8, 14],
        Rotor::VII => seq![16, 12, 6, 24, 21, 15, 4, 3, 17, 2, 22, 19, 8, 0, 13, 20, 23, 5, 10, 25, 14, 18, 11, 7, 9, 1],
        Rotor::VIII => seq![16, 9, 8, 13, 18, 0, 24, 3, 21, 10, 1, 5, 17, 20, 7, 12, 2, 15, 11, 4, 22, 25, 19, 6, 23, 14],
        Rotor::BETA => seq![17, 11, 5, 14, 1, 21, 20, 23, 7, 3, 18, 0, 13, 6, 24, 10, 12, 15, 25, 16, 22, 4, 9, 8, 2, 19],
        Rotor::GAMMA => seq![4, 11, 15, 25, 7, 0, 23, 9, 13, 24, 3, 17, 10, 5, 2, 19, 18, 8, 1, 12, 6, 22, 16, 21, 14, 20],
    }
}

/// The letters at which each rotating wheel carries its neighbour along.
pub open spec fn rotor_notches(r: Rotor) -> Seq<char> {
    match r {
        Rotor::I => seq!['Q'],
        Rotor::II => seq!['E'],
        Rotor::III => seq!['V'],
        Rotor::IV => seq!['J'],
        Rotor::V => seq!['Z'],
        Rotor::VI => seq!['Z', 'M'],
        Rotor::VII => seq!['Z', 'M'],
        Rotor::VIII => seq!['Z', 'M'],
        Rotor::BETA => seq![],
        Rotor::GAMMA => seq![],
    }
}

/// Lower-case name of each rotating wheel.
pub open spec fn rotor_name(r: Rotor) -> Seq<char> {
    match r {
        Rotor::I => seq!['i'],
        Rotor::II => seq!['i', 'i'],
        Rotor::III => seq!['i', 'i', 'i'],
        Rotor::IV => seq!['i', 'v'],
        Rotor::V => seq!['v'],
        Rotor::VI => seq!['v', 'i'],
        Rotor::VII => seq!['v', 'i', 'i'],
        Rotor::VIII => seq!['v', 'i', 'i', 'i'],
        Rotor::BETA => seq!['b', 'e', 't', 'a'],
        Rotor::GAMMA => seq!['g', 'a', 'm', 'm', 'a'],
    }
}

/// Wiring of each reflector.
pub open spec fn reflector_wiring(f: Reflector) -> Seq<int> {
    match f {
        Reflector::UKWB => seq![24, 17, 20, 7, 16, 18, 11, 3, 15, 23, 13, 6, 14, 10, 12, 8, 4, 1, 5, 25, 2, 22, 21, 9, 0, 19],
        Reflector::UKWC => seq![5, 21, 15, 9, 8, 0, 14, 24, 4, 3, 17, 25, 23, 22, 6, 2, 19, 10, 20, 16, 18, 1, 13, 12, 7, 11],
        Reflector::BTHIN => seq![4, 13, 10, 16, 0, 20, 24, 22, 9, 8, 2, 14, 15, 1, 11, 12, 3, 23, 25, 21, 5, 19, 7, 17, 6, 18],
        Reflector::CTHIN => seq![17, 3, 14, 1, 9, 13, 19, 10, 21, 4, 7, 12, 11, 5, 2, 22, 25, 0, 23, 6, 24, 8, 15, 18, 20, 16],
    }
}

/// Lower-case name of each reflector.
pub open spec fn reflector_name(f: Reflector) -> Seq<char> {
    match f {
        Reflector::UKWB => seq!['u', 'k', 'w', 'b'],
        Reflector::UKWC => seq!['u', 'k', 'w', 'c'],
        Reflector::BTHIN => seq!['b', 't', 'h', 'i', 'n'],
        Reflector::CTHIN => seq!['c', 't', 'h', 'i', 'n'],
    }
}

/// The rotating wheel with the lower-case name `s`, if any.
pub open spec fn rotor_named(s: Seq<char>) -> Option<Rotor> {
    if s == rotor_name(Rotor::I) {
        Some(Rotor::I)
    } else if s == rotor_name(Rotor::II) {
        Some(Rotor::II)
    } else if s == rotor_name(Rotor::III) {
        Some(Rotor::III)
    } else if s == rotor_name(Rotor::IV) {
        Some(Rotor::IV)
    } else if s == rotor_name(Rotor::V) {
        Some(Rotor::V)
    } else if s == rotor_name(Rotor::VI) {
        Some(Rotor::VI)
    } else if s == rotor_name(Rotor::VII) {
        Some(Rotor::VII)
    } else if s == rotor_name(Rotor::VIII) {
        Some(Rotor::VIII)
    } else if s == rotor_name(Rotor::BETA) {
        Some(Rotor::BETA)
    } else if s == rotor_name(Rotor::GAMMA) {
        Some(Rotor::GAMMA)
    } else {
        None
    }
}

/// The reflector with the lower-case name `s`, if any.
pub open spec fn reflector_named(s: Seq<char>) -> Option<Reflector> {
    if s == reflector_name(Reflector::UKWB) {
        Some(Reflector::UKWB)
    } else if s == reflector_name(Reflector::UKWC) {
        Some(Reflector::UKWC)
    } else if s == reflector_name(Reflector::BTHIN) {
        Some(Reflector::BTHIN)
    } else if s == reflector_name(Reflector::CTHIN) {
        Some(Reflector::CTHIN)
    } else {
        None
    }
}

/// Whether two strings hold the same characters.
pub fn same_text(a: &str, b: &str) -> (r: bool)
    ensures
        r == (a@ == b@),
{
    let n = a.unicode_len();
    if n != b.unicode_len() {
        return false;
    }
    let mut i: usize = 0;
    while i < n
        invariant
            n == a@.len(),
            n == b@.len(),
            i <= n,
            forall|k: int| 0 <= k < i ==> a@[k] == b@[k],
        decreases n - i,
    {
        if a.get_char(i) != b.get_char(i) {
            return false;
        }
        i = i + 1;
    }
    assert(a@ =~= b@);
    true
}

/// `s` spells the contacts of `p` as the letters `A`..`Z`.
pub open spec fn spells(s: Seq<char>, p: Seq<int>) -> bool {
    &&& s.len() == p.len()
    &&& forall|i: int| 0 <= i < s.len() ==> #[trigger] (s[i] as int) == 65 + p[i]
}

/// `p` is a permutation of the 26 contacts and `q` is its inverse.
pub open spec fn inverse_pair(p: Seq<int>, q: Seq<int>) -> bool {
    &&& p.len() == 26
    &&& q.len() == 26
    &&& forall|x: int| 0 <= x < 26 ==> 0 <= #[trigger] p[x] < 26 && q[p[x]] == x
    &&& forall|x: int| 0 <= x < 26 ==> 0 <= #[trigger] q[x] < 26 && p[q[x]] == x
}

/// A reflector's wiring swaps contacts in pairs and leaves none in place.
pub open spec fn reflecting(p: Seq<int>) -> bool {
    &&& p.len() == 26
    &&& forall|x: int| 0 <= x < 26 ==> 0 <= #[trigger] p[x] < 26 && p[p[x]] == x && p[x] != x
}

/// Every rotating wheel is wired as a permutation.
pub proof fn lemma_rotor_permutes(r: Rotor)
    ensures
        inverse_pair(rotor_wiring(r), rotor_unwiring(r)),
{
}

/// Every reflector pairs the contacts without a fixed point.
pub proof fn lemma_reflector_pairs(f: Reflector)
    ensures
        reflecting(reflector_wiring(f)),
{
}

impl Default for Reflector {
    fn default() -> (r: Self)
        ensures
            r == Reflector::UKWB,
    {
        Reflector::UKWB
    }
}

impl Rotor {
    /// Looks up a rotating wheel by its lower-case name.
    pub fn from_name(name: &str) -> (r: Option<Rotor>)
        ensures
            r == rotor_named(name@),
    {
        proof {
            reveal_strlit("i");
            assert("i"@ =~= rotor_name(Rotor::I));
        }
        if same_text(name, "i") {
            return Some(Rotor::I);
        }
        proof {
            reveal_strlit("ii");
            assert("ii"@ =~= rotor_name(Rotor::II));
        }
        if same_text(name, "ii") {
            return Some(Rotor::II);
        }
        proof {
            reveal_strlit("iii");
            assert("iii"@ =~= rotor_name(Rotor::III));
        }
        if same_text(name, "iii") {
            return Some(Rotor::III);
        }
        proof {
            reveal_strlit("iv");
            assert("iv"@ =~= rotor_name(Rotor::IV));
        }
        if same_text(name, "iv") {
            return Some(Rotor::IV);
        }
        proof {
            reveal_strlit("v");
            assert("v"@ =~= rotor_name(Rotor::V));
        }
        if same_text(name, "v") {
            return Some(Rotor::V);
        }
        proof {
            reveal_strlit("vi");
            assert("vi"@ =~= rotor_name(Rotor::VI));
        }
        if same_text(name, "vi") {
            return Some(Rotor::VI);
        }
        proof {
            reveal_strlit("vii");
            assert("vii"@ =~= rotor_name(Rotor::VII));
        }
        if same_text(name, "vii") {
            return Some(Rotor::VII);
        }
        proof {
            reveal_strlit("viii");
            assert("viii"@ =~= rotor_name(Rotor::VIII));
        }
        if same_text(name, "viii") {
            return Some(Rotor::VIII);
        }
        proof {
            reveal_strlit("beta");
            assert("beta"@ =~= rotor_name(Rotor::BETA));
        }
        if same_text(name, "beta") {
            return Some(Rotor::BETA);
        }
        proof {
            reveal_strlit("gamma");
            assert("gamma"@ =~= rotor_name(Rotor::GAMMA));
        }
        if same_text(name, "gamma") {
            return Some(Rotor::GAMMA);
        }
        None
    }

    /// The wiring of this wheel, as the letters that `A`..`Z` are wired to.
    pub fn alpha(&self) -> (r: &'static str)
        ensures
            spells(r@, rotor_wiring(*self)),
    {
        match self {
            Rotor::I => {
                proof {
                    reveal_strlit("EKMFLGDQVZNTOWYHXUSPAIBRCJ");
                }
                "EKMFLGDQVZNTOWYHXUSPAIBRCJ"
            },
            Rotor::II => {
                proof {
                    reveal_strlit("AJDKSIRUXBLHWTMCQGZNPYFVOE");
                }
                "AJDKSIRUXBLHWTMCQGZNPYFVOE"
            },
            Rotor::III => {
                proof {
                    reveal_strlit("BDFHJLCPRTXVZNYEIWGAKMUSQO");
                }
                "BDFHJLCPRTXVZNYEIWGAKMUSQO"
            },
            Rotor::IV => {
                proof {
                    reveal_strlit("ESOVPZJAYQUIRHXLNFTGKDCMWB");
                }
                "ESOVPZJAYQUIRHXLNFTGKDCMWB"
            },
            Rotor::V => {
                proof {
                    reveal_strlit("VZBRGITYUPSDNHLXAWMJQOFECK");
                }
                "VZBRGITYUPSDNHLXAWMJQOFECK"
            },
            Rotor::VI => {
                proof {
                    reveal_strlit("JPGVOUMFYQBENHZRDKASXLICTW");
                }
                "JPGVOUMFYQBENHZRDKASXLICTW"
            },
            Rotor::VII => {
                proof {
                    reveal_strlit("NZJHGRCXMYSWBOUFAIVLPEKQDT");
                }
                "NZJHGRCXMYSWBOUFAIVLPEKQDT"
            },
            Rotor::VIII => {
                proof {
                    reveal_strlit("FKQHTLXOCBJSPDZRAMEWNIUYGV");
                }
                "FKQHTLXOCBJSPDZRAMEWNIUYGV"
            },
            Rotor::BETA => {
                proof {
                    reveal_strlit("LEYJVCNIXWPBQMDRTAKZGFUHOS");
                }
                "LEYJVCNIXWPBQMDRTAKZGFUHOS"
            },
            Rotor::GAMMA => {
                proof {
                    reveal_strlit("FSOKANUERHMBTIYCWLQPZXVGJD");
                }
                "FSOKANUERHMBTIYCWLQPZXVGJD"
            },
        }
    }

    /// The letters at which this wheel carries its left neighbour along.
    pub fn turnovers(&self) -> (r: &'static str)
        ensures
            r@ == rotor_notches(*self),
    {
        match self {
            Rotor::I => {
                proof {
                    reveal_strlit("Q");
                }
                "Q"
            },
            Rotor::II => {
                proof {
                    reveal_strlit("E");
                }
                "E"
            },
            Rotor::III => {
                proof {
                    reveal_strlit("V");
                }
                "V"
            },
            Rotor::IV => {
                proof {
                    reveal_strlit("J");
                }
                "J"
            },
            Rotor::V => {
                proof {
                    reveal_strlit("Z");
                }
                "Z"
            },
            Rotor::VI => {
                proof {
                    reveal_strlit("ZM");
                }
                "ZM"
            },
            Rotor::VII => {
                proof {
                    reveal_strlit("ZM");
                }
                "ZM"
            },
            Rotor::VIII => {
                proof {
                    reveal_strlit("ZM");
                }
                "ZM"
            },
            Rotor::BETA => {
                proof {
                    reveal_strlit("");
                }
                ""
            },
            Rotor::GAMMA => {
                proof {
                    reveal_strlit("");
                }
                ""
            },
        }
    }
}

impl Reflector {
    /// Looks up a reflector by its lower-case name.
    pub fn from_name(name: &str) -> (r: Option<Reflector>)
        ensures
            r == reflector_named(name@),
    {
        proof {
            reveal_strlit("ukwb");
            assert("ukwb"@ =~= reflector_name(Reflector::UKWB));
        }
        if same_text(name, "ukwb") {
            return Some(Reflector::UKWB);
        }
        proof {
            reveal_strlit("ukwc");
            assert("ukwc"@ =~= reflector_name(Reflector::UKWC));
        }
        if same_text(name, "ukwc") {
            return Some(Reflector::UKWC);
        }
        proof {
            reveal_strlit("bthin");
            assert("bthin"@ =~= reflector_name(Reflector::BTHIN));
        }
        if same_text(name, "bthin") {
            return Some(Reflector::BTHIN);
        }
        proof {
            reveal_strlit("cthin");
            assert("cthin"@ =~= reflector_name(Reflector::CTHIN));
        }
        if same_text(name, "cthin") {
            return Some(Reflector::CTHIN);
        }
        None
    }

    fn alpha(&self) -> (r: &'static str)
        ensures
            spells(r@, reflector_wiring(*self)),
    {
        match self {
            Reflector::UKWB => {
                proof {
                    reveal_strlit("YRUHQSLDPXNGOKMIEBFZCWVJAT");
                }
                "YRUHQSLDPXNGOKMIEBFZCWVJAT"
            },
            Reflector::UKWC => {
                proof {
                    reveal_strlit("FVPJIAOYEDRZXWGCTKUQSBNMHL");
                }
                "FVPJIAOYEDRZXWGCTKUQSBNMHL"
            },
            Reflector::BTHIN => {
                proof {
                    reveal_strlit("ENKQAUYWJICOPBLMDXZVFTHRGS");
                }
                "ENKQAUYWJICOPBLMDXZVFTHRGS"
            },
            Reflector::CTHIN => {
                proof {
                    reveal_strlit("RDOBJNTKVEHMLFCWZAXGYIPSUQ");
                }
                "RDOBJNTKVEHMLFCWZAXGYIPSUQ"
            },
        }
    }
}

/// The wheels of a machine: its rotating wheels, leftmost first, and its reflector.
#[derive(Debug, Clone, PartialEq)]
pub struct Rotors {
    pub reflector: Reflector,
    pub rotors: Vec<Wheel>,
}

/// One wheel of the stack: a rotating wheel or the reflector.
#[derive(Debug, Clone, Copy, PartialEq, Eq, Structural)]
pub enum Wheel {
    Rotor(Rotor),
    Reflector(Reflector),
}

/// The wiring of any wheel.
pub open spec fn wheel_wiring(w: Wheel) -> Seq<int> {
    match w {
        Wheel::Rotor(r) => rotor_wiring(r),
        Wheel::Reflector(f) => reflector_wiring(f),
    }
}

impl Wheel {
    /// The wiring of this wheel, as the letters that `A`..`Z` are wired to.
    pub fn alpha(&self) -> (r: &'static str)
        ensures
            spells(r@, wheel_wiring(*self)),
    {
        match self {
            Wheel::Rotor(x) => x.alpha(),
            Wheel::Reflector(x) => x.alpha(),
        }
    }

    /// The turnover letters of a rotating wheel; a reflector has none to ask for.
    pub fn turnovers(&self) -> (r: &'static str)
        requires
            self is Rotor,
        ensures
            r@ == rotor_notches(self->Rotor_0),
    {
        match self {
            Wheel::Rotor(x) => x.turnovers(),
            Wheel::Reflector(_) => "",
        }
    }
}

impl Default for Rotors {
    fn default() -> (r: Self)
        ensures
            r.reflector == Reflector::UKWB,
            r.rotors@ == seq![Wheel::Rotor(Rotor::I), Wheel::Rotor(Rotor::II), Wheel::Rotor(Rotor::III)],
    {
        Rotors {
            reflector: Reflector::UKWB,
            rotors: vec![Wheel::Rotor(Rotor::I), Wheel::Rotor(Rotor::II), Wheel::Rotor(Rotor::III)],
        }
    }
}

} // verus!
