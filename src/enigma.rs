//! The machine: its configuration, the plugboard and the encoder.
use std::collections::HashMap;
use vstd::prelude::*;
use crate::circuit::{Circuit, advance, circuit_map, code_ok, stack_ok, lemma_path_involution};
use crate::rotors::{Reflector, Rotor, Rotors, Wheel, rotor_named, reflector_named, rotor_notches};

verus! {

broadcast use vstd::std_specs::hash::group_hash_axioms;

/// The plugboard, by character code.
pub type Stecker = HashMap<u32, u32>;

/// Why a machine could not be built or a text could not be enciphered.
#[derive(Debug, Clone, Copy, PartialEq, Eq, Structural)]
pub enum EnigmaError {
    UnknownWheel,
    InvalidConfiguration,
    InvalidInput,
}

/// An upper-case letter `A`..`Z`.
pub open spec fn upper(c: char) -> bool {
    'A' <= c <= 'Z'
}

/// Two plugboard pairs that have a letter in common.
pub open spec fn share(p: (char, char), q: (char, char)) -> bool {
    p.0 == q.0 || p.0 == q.1 || p.1 == q.0 || p.1 == q.1
}

/// Plugboard pairs of letters, no letter in two pairs.
pub open spec fn pairs_ok(pairs: Seq<(char, char)>) -> bool {
    &&& forall|i: int| 0 <= i < pairs.len() ==> upper(#[trigger] pairs[i].0) && upper(pairs[i].1)
    &&& forall|i: int, j: int|
        0 <= i < j < pairs.len() ==> !share(#[trigger] pairs[i], #[trigger] pairs[j])
}

/// The letter that a plugboard wired with `pairs` sends `c` to; a later pair wins.
pub open spec fn plugged(pairs: Seq<(char, char)>, c: u32) -> u32
    decreases pairs.len(),
{
    if pairs.len() == 0 {
        c
    } else {
        let (a, b) = pairs.last();
        if c == b as u32 {
            a as u32
        } else if c == a as u32 {
            b as u32
        } else {
            plugged(pairs.drop_last(), c)
        }
    }
}

/// The character codes of the letters `A`..`Z`.
pub open spec fn letter_codes() -> Set<u32> {
    Set::new(|k: u32| 65 <= k <= 90)
}

/// A plugboard that swaps the letters `A`..`Z` in pairs.
pub open spec fn plug_ok(m: Map<u32, u32>) -> bool {
    forall|k: u32|
        #![trigger m.contains_key(k)]
        #![trigger m[k]]
        65 <= k <= 90 ==> m.contains_key(k) && 65 <= m[k] <= 90 && m[m[k]] == k
}

proof fn lemma_plugged_source(pairs: Seq<(char, char)>, c: u32)
    ensures
        plugged(pairs, c) == c || exists|i: int|
            0 <= i < pairs.len() && (pairs[i].0 as u32 == plugged(pairs, c) || pairs[i].1 as u32
                == plugged(pairs, c)),
    decreases pairs.len(),
{
    if pairs.len() > 0 {
        let pre = pairs.drop_last();
        lemma_plugged_source(pre, c);
        let d = plugged(pairs, c);
        if d != c && d == plugged(pre, c) {
            let i = choose|i: int|
                0 <= i < pre.len() && (pre[i].0 as u32 == d || pre[i].1 as u32 == d);
            assert(pairs[i] == pre[i]);
        } else if d != c {
            assert(pairs[pairs.len() - 1] == pairs.last());
        }
    }
}

/// A plugboard whose pairs share no letter sends each letter to a letter and back.
pub proof fn lemma_plug_involution(pairs: Seq<(char, char)>, c: u32)
    requires
        pairs_ok(pairs),
        65 <= c <= 90,
    ensures
        65 <= plugged(pairs, c) <= 90,
        plugged(pairs, plugged(pairs, c)) == c,
    decreases pairs.len(),
{
    if pairs.len() > 0 {
        let pre = pairs.drop_last();
        let n = pairs.len() - 1;
        let (a, b) = pairs.last();
        assert(pairs[n] == pairs.last());
        assert(upper(pairs[n].0) && upper(pairs[n].1));
        assert(pairs_ok(pre)) by {
            assert forall|i: int, j: int| 0 <= i < j < pre.len() implies !share(
                #[trigger] pre[i],
                #[trigger] pre[j],
            ) by {
                assert(pre[i] == pairs[i] && pre[j] == pairs[j]);
            }
            assert forall|i: int| 0 <= i < pre.len() implies upper(#[trigger] pre[i].0) && upper(
                pre[i].1,
            ) by {
                assert(pre[i] == pairs[i]);
            }
        }
        if c != a as u32 && c != b as u32 {
            lemma_plug_involution(pre, c);
            let d = plugged(pre, c);
            lemma_plugged_source(pre, c);
            if d == a as u32 || d == b as u32 {
                let i = choose|i: int|
                    0 <= i < pre.len() && (pre[i].0 as u32 == d || pre[i].1 as u32 == d);
                assert(pre[i] == pairs[i]);
                assert(share(pairs[i], pairs[n]));
            }
        }
    }
}

/// Each pair of the plugboard is swapped both ways.
pub proof fn lemma_plug_pair(pairs: Seq<(char, char)>, i: int)
    requires
        pairs_ok(pairs),
        0 <= i < pairs.len(),
    ensures
        plugged(pairs, pairs[i].0 as u32) == pairs[i].1 as u32,
        plugged(pairs, pairs[i].1 as u32) == pairs[i].0 as u32,
        plugged(pairs, plugged(pairs, pairs[i].0 as u32)) == pairs[i].0 as u32,
    decreases pairs.len(),
{
    let pre = pairs.drop_last();
    let n = pairs.len() - 1;
    assert(pairs[n] == pairs.last());
    assert(upper(pairs[i].0) && upper(pairs[i].1));
    if i < n {
        assert(!share(pairs[i], pairs[n]));
        assert(pre[i] == pairs[i]);
        assert(pairs_ok(pre)) by {
            assert forall|a: int, b: int| 0 <= a < b < pre.len() implies !share(
                #[trigger] pre[a],
                #[trigger] pre[b],
            ) by {
                assert(pre[a] == pairs[a] && pre[b] == pairs[b]);
            }
            assert forall|a: int| 0 <= a < pre.len() implies upper(#[trigger] pre[a].0) && upper(
                pre[a].1,
            ) by {
                assert(pre[a] == pairs[a]);
            }
        }
        lemma_plug_pair(pre, i);
    }
    lemma_plug_involution(pairs, pairs[i].0 as u32);
}

/// Characters with Unicode's `White_Space` property.
pub open spec fn white_space(c: char) -> bool {
    let v = c as u32;
    (0x09 <= v <= 0x0D) || v == 0x20 || v == 0x85 || v == 0xA0 || v == 0x1680 || (0x2000 <= v
        <= 0x200A) || v == 0x2028 || v == 0x2029 || v == 0x202F || v == 0x205F || v == 0x3000
}

/// Relies on `char::is_whitespace`: true exactly for the characters with Unicode's
/// `White_Space` property.
#[verifier::external_body]
fn is_blank(c: char) -> (r: bool)
    ensures
        r == white_space(c),
{
    c.is_whitespace()
}

/// Relies on `String::push`: appends one character.
#[verifier::external_body]
fn push_char(s: &mut String, c: char)
    ensures
        final(s)@ == old(s)@.push(c),
{
    s.push(c)
}

/// What the encoder accepts: white space and the letters `A`..`Z`.
pub open spec fn text_ok(text: Seq<char>) -> bool {
    forall|i: int| 0 <= i < text.len() ==> white_space(#[trigger] text[i]) || upper(text[i])
}

/// The character with code `v`, for a code below 256.
pub open spec fn letter(v: u32) -> char {
    (v as u8) as char
}

/// The letter code that the key `c` lights up, with plugboard `pb` and rotation `code`.
pub open spec fn press(stack: Seq<Wheel>, pb: Map<u32, u32>, code: [usize; 3], c: char) -> u32 {
    pb[(circuit_map(stack, code, pb[c as u32] as int - 65) + 65) as u32]
}

/// The text that a machine with this stack, plugboard, turnover letters and stepping state
/// makes of `text`.
pub open spec fn keyed(
    stack: Seq<Wheel>,
    pb: Map<u32, u32>,
    mid: Seq<char>,
    right: Seq<char>,
    code: [usize; 3],
    step: bool,
    text: Seq<char>,
) -> Seq<char>
    decreases text.len(),
{
    if text.len() == 0 {
        Seq::empty()
    } else if white_space(text[0]) {
        seq![text[0]] + keyed(stack, pb, mid, right, code, step, text.drop_first())
    } else {
        let (code2, step2) = advance(code, step, mid, right);
        seq![letter(press(stack, pb, code2, text[0]))] + keyed(
            stack,
            pb,
            mid,
            right,
            code2,
            step2,
            text.drop_first(),
        )
    }
}

/// The stepping state after `text`.
pub open spec fn dial_after(
    mid: Seq<char>,
    right: Seq<char>,
    code: [usize; 3],
    step: bool,
    text: Seq<char>,
) -> ([usize; 3], bool)
    decreases text.len(),
{
    if text.len() == 0 {
        (code, step)
    } else if white_space(text[0]) {
        dial_after(mid, right, code, step, text.drop_first())
    } else {
        let (code2, step2) = advance(code, step, mid, right);
        dial_after(mid, right, code2, step2, text.drop_first())
    }
}

/// Thin wheels: at most one of each in a machine.
pub open spec fn greek(r: Rotor) -> bool {
    r == Rotor::BETA || r == Rotor::GAMMA
}

/// Standard reflectors go with three rotating wheels, thin ones with four.
pub open spec fn reflector_fits(f: Reflector, n: int) -> bool {
    if f == Reflector::UKWB || f == Reflector::UKWC {
        n == 3
    } else {
        n == 4
    }
}

/// A thin wheel named twice among `rs`.
pub open spec fn greek_twice(rs: Seq<Rotor>) -> bool {
    exists|i: int, j: int| 0 <= i < j < rs.len() && rs[i] == rs[j] && greek(rs[i])
}

/// The rotating wheels that `names` name.
pub open spec fn named_rotors(names: Seq<&str>) -> Seq<Rotor> {
    names.map_values(|s: &str| rotor_named(s@)->Some_0)
}

/// The rotation that the setting letters give, `A` being 0.
pub open spec fn code_of(settings: Option<[char; 3]>) -> [usize; 3] {
    match settings {
        Some(c) => [
            (c@[0] as u32 - 65) as usize,
            (c@[1] as u32 - 65) as usize,
            (c@[2] as u32 - 65) as usize,
        ],
        None => [0usize, 0, 0],
    }
}

/// The plugboard pairs given, none when none are.
pub open spec fn pairs_of(plugs: Option<&[(char, char)]>) -> Seq<(char, char)> {
    match plugs {
        Some(p) => p@,
        None => Seq::empty(),
    }
}

/// What is wrong with a configuration, checked in this order: the number of wheels, the
/// wheel names, thin wheels named twice, the reflector's name, whether the reflector goes
/// with the wheels, the rotation letters, the plugboard pairs.
pub open spec fn config_fault(
    names: Seq<&str>,
    reflector: Seq<char>,
    settings: Option<[char; 3]>,
    plugs: Seq<(char, char)>,
) -> Option<EnigmaError> {
    if !(names.len() == 3 || names.len() == 4) {
        Some(EnigmaError::InvalidConfiguration)
    } else if exists|i: int| 0 <= i < names.len() && rotor_named((#[trigger] names[i])@) is None {
        Some(EnigmaError::UnknownWheel)
    } else if greek_twice(named_rotors(names)) {
        Some(EnigmaError::InvalidConfiguration)
    } else if reflector_named(reflector) is None {
        Some(EnigmaError::UnknownWheel)
    } else if !reflector_fits(reflector_named(reflector)->Some_0, names.len() as int) {
        Some(EnigmaError::InvalidConfiguration)
    } else if settings is Some && !(upper(settings->Some_0@[0]) && upper(settings->Some_0@[1])
        && upper(settings->Some_0@[2])) {
        Some(EnigmaError::InvalidConfiguration)
    } else if !pairs_ok(plugs) {
        Some(EnigmaError::InvalidConfiguration)
    } else {
        None
    }
}

/// A machine: its wheels, its stepping state and signal path, and its plugboard.
#[derive(Debug, PartialEq)]
pub struct Enigma {
    pub wheels: Rotors,
    pub circuit: Circuit,
    pub plugboard: Stecker,
}

impl Enigma {
    /// Three or four rotating wheels, a circuit that matches them with its cursor at the
    /// start of a letter, and a plugboard that swaps letters in pairs.
    pub open spec fn wf(&self) -> bool {
        let rs = self.wheels.rotors@;
        &&& rs.len() == 3 || rs.len() == 4
        &&& forall|i: int| 0 <= i < rs.len() ==> #[trigger] rs[i] is Rotor
        &&& self.circuit.wf()
        &&& self.circuit.at_start()
        &&& self.circuit.len == rs.len() + 1
        &&& forall|i: int|
            0 <= i < rs.len() ==> #[trigger] self.circuit.turnovers@[i]@ == rotor_notches(
                rs[i]->Rotor_0,
            )
        &&& plug_ok(self.plugboard@)
        &&& self.plugboard@.dom() == letter_codes()
    }

    /// The wheel stack that the signal passes: the rotating wheels from the keyboard end,
    /// then the reflector.
    pub open spec fn stack(&self) -> Seq<Wheel> {
        let rs = self.wheels.rotors@;
        Seq::new(rs.len(), |i: int| rs[rs.len() - 1 - i]).push(
            Wheel::Reflector(self.wheels.reflector),
        )
    }

    /// What this machine, in its present state, makes of `text`.
    pub open spec fn ciphertext(&self, text: Seq<char>) -> Seq<char> {
        keyed(
            self.stack(),
            self.plugboard@,
            self.circuit.mid_notches(),
            self.circuit.right_notches(),
            self.circuit.code,
            self.circuit.step,
            text,
        )
    }

    /// The stepping state of this machine after `text`.
    pub open spec fn dial_after(&self, text: Seq<char>) -> ([usize; 3], bool) {
        dial_after(
            self.circuit.mid_notches(),
            self.circuit.right_notches(),
            self.circuit.code,
            self.circuit.step,
            text,
        )
    }

    /// A machine with `config`'s wheels, rotation `code` and the plugboard of `plugs`.
    fn from(config: Rotors, code: [usize; 3], plugs: Option<&[(char, char)]>) -> (e: Enigma)
        requires
            config.rotors@.len() == 3 || config.rotors@.len() == 4,
            forall|i: int| 0 <= i < config.rotors@.len() ==> #[trigger] config.rotors@[i] is Rotor,
            code_ok(code),
            pairs_ok(pairs_of(plugs)),
        ensures
            e.wf(),
            e.wheels == config,
            e.circuit.code == code,
            !e.circuit.step,
            forall|k: u32| 65 <= k <= 90 ==> #[trigger] e.plugboard@[k] == plugged(pairs_of(plugs), k),
            forall|i: int|
                0 <= i < pairs_of(plugs).len() ==> e.plugboard@[(#[trigger] pairs_of(plugs)[i]).0 as u32]
                    == pairs_of(plugs)[i].1 as u32 && e.plugboard@[pairs_of(plugs)[i].1 as u32]
                    == pairs_of(plugs)[i].0 as u32,
    {
        let circuit = Circuit::new(&config.rotors, code);
        let plugboard = stecker(plugs);
        proof {
            assert forall|k: u32| #![trigger plugboard@.contains_key(k)] #![trigger plugboard@[k]] 65 <= k <= 90 implies plugboard@.contains_key(k)
                && 65 <= plugboard@[k] <= 90 && plugboard@[plugboard@[k]] == k by {
                lemma_plug_involution(pairs_of(plugs), k);
                assert(plugboard@.contains_key(k));
                let d = plugboard@[k];
                assert(65 <= d <= 90);
                assert(plugboard@.contains_key(d) && plugboard@[d] == plugged(pairs_of(plugs), d));
            }
            assert forall|k: u32| 65 <= k <= 90 implies #[trigger] plugboard@[k] == plugged(
                pairs_of(plugs),
                k,
            ) by {
                assert(plugboard@.contains_key(k));
            }
            let ps = pairs_of(plugs);
            assert forall|i: int| 0 <= i < ps.len() implies plugboard@[(#[trigger] ps[i]).0 as u32]
                == ps[i].1 as u32 && plugboard@[ps[i].1 as u32] == ps[i].0 as u32 by {
                lemma_plug_pair(ps, i);
                assert(upper(ps[i].0) && upper(ps[i].1));
                assert(plugboard@.contains_key(ps[i].0 as u32));
                assert(plugboard@.contains_key(ps[i].1 as u32));
            }
        }
        Enigma { wheels: config, circuit, plugboard }
    }

    /// The machine with wheels I, II, III, reflector UKWB, rotation `A`,`A`,`A` and no
    /// plugboard pairs.
    pub fn new() -> (e: Self)
        ensures
            e.wf(),
            e.wheels.reflector == Reflector::UKWB,
            e.wheels.rotors@ == seq![Wheel::Rotor(Rotor::I), Wheel::Rotor(Rotor::II), Wheel::Rotor(Rotor::III)],
            e.circuit.code == [0usize, 0, 0],
            !e.circuit.step,
            forall|k: u32| 65 <= k <= 90 ==> #[trigger] e.plugboard@[k] == k,
    {
        Enigma::from(Rotors::default(), [0, 0, 0], None)
    }

    /// A machine with the rotating wheels named in `rotors`, leftmost first, and the
    /// reflector named `reflector`, at rotation `A`,`A`,`A` with no plugboard pairs.
    pub fn from_wheels(rotors: &[&str], reflector: &str) -> (r: Result<Self, EnigmaError>)
        ensures
            match r {
                Ok(e) => {
                    &&& config_fault(rotors@, reflector@, None, Seq::empty()) is None
                    &&& e.wf()
                    &&& e.wheels.reflector == reflector_named(reflector@)->Some_0
                    &&& e.wheels.rotors@.len() == rotors@.len()
                    &&& forall|i: int|
                        0 <= i < rotors@.len() ==> #[trigger] e.wheels.rotors@[i] == Wheel::Rotor(
                            named_rotors(rotors@)[i],
                        )
                    &&& e.circuit.code == [0usize, 0, 0]
                    &&& !e.circuit.step
                    &&& forall|k: u32| 65 <= k <= 90 ==> #[trigger] e.plugboard@[k] == k
                },
                Err(err) => config_fault(rotors@, reflector@, None, Seq::empty()) == Some(err),
            },
    {
        Enigma::from_config(rotors, reflector, None, None)
    }

    /// A machine with the rotating wheels named in `rotors`, leftmost first, the reflector
    /// named `reflector`, the rotation given by three letters (`A`,`A`,`A` when none are
    /// given) and the plugboard pairs `plug_settings`.
    pub fn from_config(
        rotors: &[&str],
        reflector: &str,
        code_settings: Option<[char; 3]>,
        plug_settings: Option<&[(char, char)]>,
    ) -> (r: Result<Self, EnigmaError>)
        ensures
            match r {
                Ok(e) => {
                    &&& config_fault(rotors@, reflector@, code_settings, pairs_of(plug_settings)) is None
                    &&& e.wf()
                    &&& e.wheels.reflector == reflector_named(reflector@)->Some_0
                    &&& e.wheels.rotors@.len() == rotors@.len()
                    &&& forall|i: int|
                        0 <= i < rotors@.len() ==> #[trigger] e.wheels.rotors@[i] == Wheel::Rotor(
                            named_rotors(rotors@)[i],
                        )
                    &&& e.circuit.code == code_of(code_settings)
                    &&& !e.circuit.step
                    &&& forall|k: u32|
                        65 <= k <= 90 ==> #[trigger] e.plugboard@[k] == plugged(
                            pairs_of(plug_settings),
                            k,
                        )
                    &&& forall|i: int|
                        0 <= i < pairs_of(plug_settings).len() ==> e.plugboard@[(
                        #[trigger] pairs_of(plug_settings)[i]).0 as u32]
                            == pairs_of(plug_settings)[i].1 as u32 && e.plugboard@[pairs_of(
                            plug_settings,
                        )[i].1 as u32] == pairs_of(plug_settings)[i].0 as u32
                },
                Err(err) => config_fault(rotors@, reflector@, code_settings, pairs_of(plug_settings))
                    == Some(err),
            },
    {
        let len = rotors.len();
        if len >= 5 || len <= 2 {
            return Err(EnigmaError::InvalidConfiguration);
        }
        let parsed = match parse_wheels(rotors) {
            Ok(v) => v,
            Err(e) => {
                return Err(e);
            },
        };
        if greek_repeat(&parsed) {
            return Err(EnigmaError::InvalidConfiguration);
        }
        let refl = match Reflector::from_name(reflector) {
            Some(f) => f,
            None => {
                return Err(EnigmaError::UnknownWheel);
            },
        };
        let fits = match refl {
            Reflector::UKWB => len == 3,
            Reflector::UKWC => len == 3,
            _ => len == 4,
        };
        if !fits {
            return Err(EnigmaError::InvalidConfiguration);
        }
        let code: [usize; 3] = match code_settings {
            Some(c) => {
                if !('A' <= c[0] && c[0] <= 'Z' && 'A' <= c[1] && c[1] <= 'Z' && 'A' <= c[2] && c[2]
                    <= 'Z') {
                    return Err(EnigmaError::InvalidConfiguration);
                }
                [(c[0] as u32 - 65) as usize, (c[1] as u32 - 65) as usize, (c[2] as u32 - 65) as usize]
            },
            None => [0, 0, 0],
        };
        let plugs_fine = match plug_settings {
            Some(p) => check_pairs(p),
            None => true,
        };
        if !plugs_fine {
            return Err(EnigmaError::InvalidConfiguration);
        }
        let mut wheels: Vec<Wheel> = Vec::new();
        let mut i: usize = 0;
        while i < parsed.len()
            invariant
                i <= parsed@.len(),
                wheels@.len() == i,
                forall|k: int| 0 <= k < i ==> #[trigger] wheels@[k] == Wheel::Rotor(parsed@[k]),
            decreases parsed@.len() - i,
        {
            wheels.push(Wheel::Rotor(parsed[i]));
            i = i + 1;
        }
        Ok(Enigma::from(Rotors { reflector: refl, rotors: wheels }, code, plug_settings))
    }
    /// Enciphers `plaintext` letter by letter, stepping the wheels before each letter;
    /// white space passes unchanged and does not step them. A character that is neither
    /// white space nor a letter `A`..`Z` rejects the whole text and leaves the machine as
    /// it was.
    pub fn encode(&mut self, plaintext: &str) -> (r: Result<String, EnigmaError>)
        requires
            old(self).wf(),
        ensures
            final(self).wf(),
            final(self).wheels == old(self).wheels,
            final(self).plugboard@ == old(self).plugboard@,
            final(self).circuit.len == old(self).circuit.len,
            final(self).circuit.turnovers == old(self).circuit.turnovers,
            r is Ok <==> text_ok(plaintext@),
            r is Err ==> r == Err::<String, EnigmaError>(EnigmaError::InvalidInput)
                && final(self).circuit.code == old(self).circuit.code && final(self).circuit.step
                == old(self).circuit.step,
            r is Ok ==> r->Ok_0@ == old(self).ciphertext(plaintext@) && (
            final(self).circuit.code,
            final(self).circuit.step,
            ) == old(self).dial_after(plaintext@),
    {
        if !accepts(plaintext) {
            return Err(EnigmaError::InvalidInput);
        }
        let n = plaintext.unicode_len();
        let rotors = stack_of(&self.wheels);
        let ghost e0 = *self;
        let ghost stack = e0.stack();
        let ghost pb = e0.plugboard@;
        let ghost mid = e0.circuit.mid_notches();
        let ghost right = e0.circuit.right_notches();
        proof {
            lemma_stack_ok(e0);
        }
        let mut out = String::new();
        let mut i: usize = 0;
        assert(plaintext@.subrange(0, n as int) =~= plaintext@);
        while i < n
            invariant
                self.wf(),
                self.wheels == e0.wheels,
                self.plugboard@ == pb,
                self.circuit.len == e0.circuit.len,
                self.circuit.turnovers == e0.circuit.turnovers,
                e0.wf(),
                stack == e0.stack(),
                stack_ok(stack),
                pb == e0.plugboard@,
                mid == e0.circuit.mid_notches(),
                right == e0.circuit.right_notches(),
                rotors@ == stack,
                n == plaintext@.len(),
                i <= n,
                text_ok(plaintext@),
                out@ + keyed(
                    stack,
                    pb,
                    mid,
                    right,
                    self.circuit.code,
                    self.circuit.step,
                    plaintext@.subrange(i as int, n as int),
                ) == e0.ciphertext(plaintext@),
                dial_after(
                    mid,
                    right,
                    self.circuit.code,
                    self.circuit.step,
                    plaintext@.subrange(i as int, n as int),
                ) == e0.dial_after(plaintext@),
            decreases n - i,
        {
            let c = plaintext.get_char(i);
            let ghost rest = plaintext@.subrange(i as int, n as int);
            let ghost tail = plaintext@.subrange(i as int + 1, n as int);
            let ghost before = out@;
            proof {
                assert(rest[0] == c);
                assert(rest.drop_first() =~= tail);
                assert(white_space(plaintext@[i as int]) || upper(plaintext@[i as int]));
            }
            if is_blank(c) {
                push_char(&mut out, c);
                assert(out@ + keyed(stack, pb, mid, right, self.circuit.code, self.circuit.step, tail)
                    =~= before + keyed(stack, pb, mid, right, self.circuit.code, self.circuit.step, rest));
            } else {
                let ghost code0 = self.circuit.code;
                let ghost step0 = self.circuit.step;
                self.circuit.accrue();
                let k = lookup(&self.plugboard, c as u32);
                let ch = (k as u8) as char;
                let s = self.circuit.scramble(&ch, &rotors);
                let e = self.circuit.signal(s as u32, self.circuit.code);
                let v = lookup(&self.plugboard, (e + 65) as u32);
                push_char(&mut out, (v as u8) as char);
                self.circuit.reset();
                proof {
                    assert(v == press(stack, pb, self.circuit.code, c));
                    assert(out@ + keyed(stack, pb, mid, right, self.circuit.code, self.circuit.step, tail)
                        =~= before + keyed(stack, pb, mid, right, code0, step0, rest));
                }
            }
            i = i + 1;
        }
        assert(plaintext@.subrange(n as int, n as int).len() == 0);
        assert(out@ =~= out@ + keyed(stack, pb, mid, right, self.circuit.code, self.circuit.step, plaintext@.subrange(n as int, n as int)));
        Ok(out)
    }

    /// Deciphers `ciphertext`: the machine is its own inverse, so this is `encode`.
    pub fn decode(&mut self, ciphertext: &str) -> (r: Result<String, EnigmaError>)
        requires
            old(self).wf(),
        ensures
            final(self).wf(),
            final(self).wheels == old(self).wheels,
            final(self).plugboard@ == old(self).plugboard@,
            final(self).circuit.len == old(self).circuit.len,
            final(self).circuit.turnovers == old(self).circuit.turnovers,
            r is Ok <==> text_ok(ciphertext@),
            r is Err ==> r == Err::<String, EnigmaError>(EnigmaError::InvalidInput)
                && final(self).circuit.code == old(self).circuit.code && final(self).circuit.step
                == old(self).circuit.step,
            r is Ok ==> r->Ok_0@ == old(self).ciphertext(ciphertext@) && (
            final(self).circuit.code,
            final(self).circuit.step,
            ) == old(self).dial_after(ciphertext@),
    {
        self.encode(ciphertext)
    }
}

impl Default for Enigma {
    fn default() -> (e: Self)
        ensures
            e.wf(),
            e.wheels.reflector == Reflector::UKWB,
            e.wheels.rotors@ == seq![Wheel::Rotor(Rotor::I), Wheel::Rotor(Rotor::II), Wheel::Rotor(Rotor::III)],
            e.circuit.code == [0usize, 0, 0],
            !e.circuit.step,
    {
        Enigma::new()
    }
}

/// The stack of a well-formed machine is a well-formed stack.
proof fn lemma_stack_ok(e: Enigma)
    requires
        e.wf(),
    ensures
        stack_ok(e.stack()),
        e.stack().len() == e.circuit.len,
{
    let s = e.stack();
    let rs = e.wheels.rotors@;
    assert forall|i: int| 0 <= i < s.len() - 1 implies #[trigger] s[i] is Rotor by {
        assert(s[i] == rs[rs.len() - 1 - i]);
    }
}

/// Whether `text` holds only white space and letters `A`..`Z`.
fn accepts(text: &str) -> (r: bool)
    ensures
        r == text_ok(text@),
{
    let n = text.unicode_len();
    let mut i: usize = 0;
    while i < n
        invariant
            n == text@.len(),
            i <= n,
            forall|k: int| 0 <= k < i ==> white_space(#[trigger] text@[k]) || upper(text@[k]),
        decreases n - i,
    {
        let c = text.get_char(i);
        if !(is_blank(c) || ('A' <= c && c <= 'Z')) {
            return false;
        }
        i = i + 1;
    }
    true
}

/// The letter that the plugboard `pb` sends `k` to.
fn lookup(pb: &Stecker, k: u32) -> (v: u32)
    requires
        pb@.contains_key(k),
    ensures
        v == pb@[k],
{
    match pb.get(&k) {
        Some(v) => *v,
        None => k,
    }
}

/// The wheel stack of `w`: its rotating wheels from the keyboard end, then its reflector.
fn stack_of(w: &Rotors) -> (r: Vec<Wheel>)
    ensures
        r@ == Seq::new(w.rotors@.len(), |i: int| w.rotors@[w.rotors@.len() - 1 - i]).push(
            Wheel::Reflector(w.reflector),
        ),
{
    let n = w.rotors.len();
    let mut r: Vec<Wheel> = Vec::new();
    let mut i: usize = 0;
    while i < n
        invariant
            n == w.rotors@.len(),
            i <= n,
            r@.len() == i,
            forall|k: int| 0 <= k < i ==> #[trigger] r@[k] == w.rotors@[n - 1 - k],
        decreases n - i,
    {
        r.push(w.rotors[n - 1 - i]);
        i = i + 1;
    }
    r.push(Wheel::Reflector(w.reflector));
    assert(r@ =~= Seq::new(w.rotors@.len(), |i: int| w.rotors@[w.rotors@.len() - 1 - i]).push(
        Wheel::Reflector(w.reflector),
    ));
    r
}


/// The plugboard with no pairs: every letter left as it is.
fn identity_board() -> (board: Stecker)
    ensures
        forall|j: u32| #![trigger board@.contains_key(j)] #![trigger board@[j]] 65 <= j <= 90 ==> board@.contains_key(j) && board@[j] == j,
        board@.dom() == letter_codes(),
{
    let mut m: Stecker = HashMap::new();
    let mut k: u32 = 65;
    while k <= 90
        invariant
            65 <= k <= 91,
            forall|j: u32| #![trigger m@.contains_key(j)] #![trigger m@[j]] 65 <= j < k ==> m@.contains_key(j) && m@[j] == j,
            m@.dom() == Set::new(|j: u32| 65 <= j < k),
        decreases 91 - k,
    {
        m.insert(k, k);
        k = k + 1;
        assert(m@.dom() =~= Set::new(|j: u32| 65 <= j < k));
    }
    assert(m@.dom() =~= letter_codes());
    m
}

/// The plugboard of `plugs`: each pair swapped, every other letter left as it is.
fn stecker(plugs: Option<&[(char, char)]>) -> (board: Stecker)
    requires
        pairs_ok(pairs_of(plugs)),
    ensures
        forall|k: u32|
            #![trigger board@.contains_key(k)]
            #![trigger board@[k]]
            65 <= k <= 90 ==> board@.contains_key(k) && board@[k] == plugged(
                pairs_of(plugs),
                k,
            ),
        board@.dom() == letter_codes(),
{
    let m = identity_board();
    match plugs {
        Some(pairs) => plug_in(m, pairs),
        None => m,
    }
}

proof fn lemma_take_all(s: Seq<(char, char)>)
    ensures
        s.take(s.len() as int) == s,
{
    assert(s.take(s.len() as int) =~= s);
}

/// Wires the pairs `pairs` into the plugboard `m`, which leaves every letter as it is.
fn plug_in(m: Stecker, pairs: &[(char, char)]) -> (board: Stecker)
    requires
        pairs_ok(pairs@),
        forall|j: u32| #![trigger m@.contains_key(j)] #![trigger m@[j]] 65 <= j <= 90 ==> m@.contains_key(j) && m@[j] == j,
        m@.dom() == letter_codes(),
    ensures
        forall|k: u32|
            #![trigger board@.contains_key(k)]
            #![trigger board@[k]]
            65 <= k <= 90 ==> board@.contains_key(k) && board@[k] == plugged(pairs@, k),
        board@.dom() == letter_codes(),
{
    let mut m = m;
    let mut i: usize = 0;
    assert forall|j: u32| #![trigger m@.contains_key(j)] #![trigger m@[j]] 65 <= j <= 90 implies m@.contains_key(j) && m@[j] == plugged(
        pairs@.take(0),
        j,
    ) by {
        assert(pairs@.take(0).len() == 0);
        assert(m@.contains_key(j));
        assert(m@[j] == j);
        assert(plugged(pairs@.take(0), j) == j);
    }
    while i < pairs.len()
        invariant
            i <= pairs@.len(),
            pairs_ok(pairs@),
            forall|j: u32|
                #![trigger m@.contains_key(j)]
                #![trigger m@[j]]
                65 <= j <= 90 ==> m@.contains_key(j) && m@[j] == plugged(
                    pairs@.take(i as int),
                    j,
                ),
            m@.dom() == letter_codes(),
        decreases pairs@.len() - i,
    {
        let (a, b) = pairs[i];
        assert(upper(pairs@[i as int].0) && upper(pairs@[i as int].1));
        m.insert(a as u32, b as u32);
        m.insert(b as u32, a as u32);
        proof {
            let t = pairs@.take(i as int + 1);
            assert(m@.dom() =~= letter_codes());
            assert(t.drop_last() =~= pairs@.take(i as int));
            assert(t.last() == pairs@[i as int]);
            assert forall|j: u32| #![trigger m@.contains_key(j)] #![trigger m@[j]] 65 <= j <= 90 implies m@.contains_key(j) && m@[j]
                == plugged(t, j) by {
                assert(plugged(t, j) == if j == b as u32 {
                    a as u32
                } else if j == a as u32 {
                    b as u32
                } else {
                    plugged(t.drop_last(), j)
                });
            }
        }
        i = i + 1;
    }
    proof {
        lemma_take_all(pairs@);
    }
    m
}

/// Whether `pairs` are pairs of letters with no letter in two pairs.
fn check_pairs(pairs: &[(char, char)]) -> (r: bool)
    ensures
        r == pairs_ok(pairs@),
{
    let n = pairs.len();
    let mut i: usize = 0;
    while i < n
        invariant
            n == pairs@.len(),
            i <= n,
            forall|a: int| 0 <= a < i ==> upper(#[trigger] pairs@[a].0) && upper(pairs@[a].1),
            forall|a: int, b: int|
                0 <= a < i && a < b < n ==> !share(#[trigger] pairs@[a], #[trigger] pairs@[b]),
        decreases n - i,
    {
        let p = pairs[i];
        if !('A' <= p.0 && p.0 <= 'Z' && 'A' <= p.1 && p.1 <= 'Z') {
            assert(!(upper(pairs@[i as int].0) && upper(pairs@[i as int].1)));
            return false;
        }
        let mut j: usize = i + 1;
        while j < n
            invariant
                n == pairs@.len(),
                i < n,
                i + 1 <= j <= n,
                p == pairs@[i as int],
                upper(p.0) && upper(p.1),
                forall|a: int| 0 <= a < i ==> upper(#[trigger] pairs@[a].0) && upper(pairs@[a].1),
                forall|a: int, b: int|
                    0 <= a < i && a < b < n ==> !share(#[trigger] pairs@[a], #[trigger] pairs@[b]),
                forall|b: int| i < b < j ==> !share(pairs@[i as int], #[trigger] pairs@[b]),
            decreases n - j,
        {
            let q = pairs[j];
            if p.0 == q.0 || p.0 == q.1 || p.1 == q.0 || p.1 == q.1 {
                assert(share(pairs@[i as int], pairs@[j as int]));
                return false;
            }
            j = j + 1;
        }
        i = i + 1;
    }
    true
}

/// Whether a thin wheel is named twice in `rs`.
fn greek_repeat(rs: &Vec<Rotor>) -> (r: bool)
    ensures
        r == greek_twice(rs@),
{
    let n = rs.len();
    let mut i: usize = 0;
    while i < n
        invariant
            n == rs@.len(),
            i <= n,
            forall|a: int, b: int|
                0 <= a < i && a < b < n ==> !(rs@[a] == rs@[b] && greek(rs@[a])),
        decreases n - i,
    {
        let mut j: usize = i + 1;
        while j < n
            invariant
                n == rs@.len(),
                i < n,
                i + 1 <= j <= n,
                forall|a: int, b: int|
                    0 <= a < i && a < b < n ==> !(rs@[a] == rs@[b] && greek(rs@[a])),
                forall|b: int| i < b < j ==> !(rs@[i as int] == rs@[b] && greek(rs@[i as int])),
            decreases n - j,
        {
            let thin = match rs[i] {
                Rotor::BETA => true,
                Rotor::GAMMA => true,
                _ => false,
            };
            if thin && rs[i] == rs[j] {
                assert(rs@[i as int] == rs@[j as int] && greek(rs@[i as int]));
                return true;
            }
            j = j + 1;
        }
        i = i + 1;
    }
    false
}

/// The rotating wheels named in `names`, or the first name that none has.
fn parse_wheels(names: &[&str]) -> (r: Result<Vec<Rotor>, EnigmaError>)
    ensures
        match r {
            Ok(v) => v@ == named_rotors(names@) && forall|i: int|
                0 <= i < names@.len() ==> rotor_named((#[trigger] names@[i])@) is Some,
            Err(e) => e == EnigmaError::UnknownWheel && exists|i: int|
                0 <= i < names@.len() && rotor_named((#[trigger] names@[i])@) is None,
        },
{
    let mut v: Vec<Rotor> = Vec::new();
    let mut i: usize = 0;
    while i < names.len()
        invariant
            i <= names@.len(),
            v@.len() == i,
            forall|k: int|
                0 <= k < i ==> rotor_named((#[trigger] names@[k])@) is Some && v@[k] == rotor_named(
                    names@[k]@,
                )->Some_0,
        decreases names@.len() - i,
    {
        match Rotor::from_name(names[i]) {
            Some(x) => v.push(x),
            None => {
                return Err(EnigmaError::UnknownWheel);
            },
        }
        i = i + 1;
    }
    assert(v@ =~= named_rotors(names@));
    Ok(v)
}

/// The number of characters of `text` that are not white space.
pub open spec fn letter_count(text: Seq<char>) -> int
    decreases text.len(),
{
    if text.len() == 0 {
        0
    } else if white_space(text[0]) {
        letter_count(text.drop_first())
    } else {
        1 + letter_count(text.drop_first())
    }
}

proof fn lemma_advance_ok(code: [usize; 3], step: bool, mid: Seq<char>, right: Seq<char>)
    requires
        code_ok(code),
    ensures
        code_ok(advance(code, step, mid, right).0),
        advance(code, step, mid, right).0@[2] == (code@[2] + 1) % 26,
{
}

proof fn lemma_press(stack: Seq<Wheel>, pb: Map<u32, u32>, code: [usize; 3], c: char)
    requires
        stack_ok(stack),
        plug_ok(pb),
        code_ok(code),
        upper(c),
    ensures
        65 <= press(stack, pb, code, c) <= 90,
        letter(press(stack, pb, code, c)) as u32 == press(stack, pb, code, c),
        upper(letter(press(stack, pb, code, c))),
        !white_space(letter(press(stack, pb, code, c))),
        press(stack, pb, code, letter(press(stack, pb, code, c))) == c as u32,
        press(stack, pb, code, c) != c as u32,
{
    let k = pb[c as u32];
    assert(pb.contains_key(c as u32));
    let x = k as int - 65;
    lemma_path_involution(stack, code, x);
    let y = circuit_map(stack, code, x);
    let v = pb[(y + 65) as u32];
    assert(pb.contains_key((y + 65) as u32));
    assert(pb.contains_key(v));
    assert(pb.contains_key(k));
    assert(pb[v] == (y + 65) as u32);
    assert(pb[k] == c as u32);
}

/// Deciphering undoes enciphering: a machine set as another was before it enciphered a
/// text turns the ciphertext back into that text.
pub proof fn lemma_decode_encode(e: Enigma, text: Seq<char>)
    requires
        e.wf(),
        text_ok(text),
    ensures
        text_ok(e.ciphertext(text)),
        e.ciphertext(e.ciphertext(text)) == text,
{
    lemma_stack_ok(e);
    lemma_keyed_reciprocal(
        e.stack(),
        e.plugboard@,
        e.circuit.mid_notches(),
        e.circuit.right_notches(),
        e.circuit.code,
        e.circuit.step,
        text,
    );
}

proof fn lemma_keyed_reciprocal(
    stack: Seq<Wheel>,
    pb: Map<u32, u32>,
    mid: Seq<char>,
    right: Seq<char>,
    code: [usize; 3],
    step: bool,
    text: Seq<char>,
)
    requires
        stack_ok(stack),
        plug_ok(pb),
        code_ok(code),
        text_ok(text),
    ensures
        text_ok(keyed(stack, pb, mid, right, code, step, text)),
        keyed(stack, pb, mid, right, code, step, keyed(stack, pb, mid, right, code, step, text))
            == text,
    decreases text.len(),
{
    let out = keyed(stack, pb, mid, right, code, step, text);
    if text.len() == 0 {
        assert(out.len() == 0);
    } else {
        let c = text[0];
        let rest = text.drop_first();
        assert(text_ok(rest)) by {
            assert forall|i: int| 0 <= i < rest.len() implies white_space(#[trigger] rest[i])
                || upper(rest[i]) by {
                assert(rest[i] == text[i + 1]);
            }
        }
        assert(white_space(text[0]) || upper(text[0]));
        if white_space(c) {
            lemma_keyed_reciprocal(stack, pb, mid, right, code, step, rest);
            let kr = keyed(stack, pb, mid, right, code, step, rest);
            assert(out == seq![c] + kr);
            assert(out[0] == c);
            assert(out.drop_first() =~= kr);
            assert(keyed(stack, pb, mid, right, code, step, out) =~= text);
            assert(text_ok(out)) by {
                assert forall|i: int| 0 <= i < out.len() implies white_space(#[trigger] out[i])
                    || upper(out[i]) by {
                    if i > 0 {
                        assert(out[i] == kr[i - 1]);
                    }
                }
            }
        } else {
            let (code2, step2) = advance(code, step, mid, right);
            lemma_advance_ok(code, step, mid, right);
            lemma_keyed_reciprocal(stack, pb, mid, right, code2, step2, rest);
            lemma_press(stack, pb, code2, c);
            let o = letter(press(stack, pb, code2, c));
            let kr = keyed(stack, pb, mid, right, code2, step2, rest);
            assert(out == seq![o] + kr);
            assert(out[0] == o);
            assert(out.drop_first() =~= kr);
            assert(letter(c as u32) == c);
            assert(keyed(stack, pb, mid, right, code, step, out) =~= text);
            assert(text_ok(out)) by {
                assert forall|i: int| 0 <= i < out.len() implies white_space(#[trigger] out[i])
                    || upper(out[i]) by {
                    if i > 0 {
                        assert(out[i] == kr[i - 1]);
                    }
                }
            }
        }
    }
}

/// No letter is enciphered to itself.
pub proof fn lemma_no_self_encoding(e: Enigma, c: char)
    requires
        e.wf(),
        upper(c),
    ensures
        e.ciphertext(seq![c]).len() == 1,
        e.ciphertext(seq![c])[0] != c,
{
    lemma_stack_ok(e);
    let (code2, step2) = advance(e.circuit.code, e.circuit.step, e.circuit.mid_notches(), e.circuit.right_notches());
    lemma_advance_ok(e.circuit.code, e.circuit.step, e.circuit.mid_notches(), e.circuit.right_notches());
    lemma_press(e.stack(), e.plugboard@, code2, c);
    assert(seq![c].drop_first().len() == 0);
    assert(!white_space(c));
    let ks = keyed(
        e.stack(),
        e.plugboard@,
        e.circuit.mid_notches(),
        e.circuit.right_notches(),
        code2,
        step2,
        seq![c].drop_first(),
    );
    assert(ks.len() == 0);
}

/// Each letter turns the right stepping wheel by one position, carries or not; white
/// space turns nothing.
pub proof fn lemma_right_wheel_count(e: Enigma, text: Seq<char>)
    requires
        e.wf(),
    ensures
        e.dial_after(text).0@[2] == (e.circuit.code@[2] + letter_count(text)) % 26,
        letter_count(text) == 0 ==> e.dial_after(text) == (e.circuit.code, e.circuit.step),
{
    lemma_dial_count(
        e.circuit.mid_notches(),
        e.circuit.right_notches(),
        e.circuit.code,
        e.circuit.step,
        text,
    );
}

proof fn lemma_dial_count(
    mid: Seq<char>,
    right: Seq<char>,
    code: [usize; 3],
    step: bool,
    text: Seq<char>,
)
    requires
        code_ok(code),
    ensures
        dial_after(mid, right, code, step, text).0@[2] == (code@[2] + letter_count(text)) % 26,
        letter_count(text) == 0 ==> dial_after(mid, right, code, step, text) == (code, step),
    decreases text.len(),
{
    if text.len() > 0 {
        let rest = text.drop_first();
        if white_space(text[0]) {
            lemma_dial_count(mid, right, code, step, rest);
        } else {
            let (code2, step2) = advance(code, step, mid, right);
            lemma_advance_ok(code, step, mid, right);
            lemma_dial_count(mid, right, code2, step2, rest);
            assert(letter_count(rest) >= 0) by {
                lemma_letter_count_nonneg(rest);
            }
            vstd::arithmetic::div_mod::lemma_add_mod_noop_right(
                letter_count(rest),
                code@[2] + 1,
                26,
            );
            assert(letter_count(rest) + (code@[2] + 1) == code@[2] + letter_count(text));
        }
    }
}

proof fn lemma_letter_count_nonneg(text: Seq<char>)
    ensures
        letter_count(text) >= 0,
    decreases text.len(),
{
    if text.len() > 0 {
        lemma_letter_count_nonneg(text.drop_first());
    }
}

/// No letter of a text is enciphered to itself, at any position.
pub proof fn lemma_no_letter_kept(e: Enigma, text: Seq<char>)
    requires
        e.wf(),
        text_ok(text),
    ensures
        e.ciphertext(text).len() == text.len(),
        forall|i: int|
            0 <= i < text.len() && !white_space(text[i]) ==> #[trigger] e.ciphertext(text)[i]
                != text[i],
{
    lemma_stack_ok(e);
    lemma_keyed_never_same(
        e.stack(),
        e.plugboard@,
        e.circuit.mid_notches(),
        e.circuit.right_notches(),
        e.circuit.code,
        e.circuit.step,
        text,
    );
}

proof fn lemma_keyed_never_same(
    stack: Seq<Wheel>,
    pb: Map<u32, u32>,
    mid: Seq<char>,
    right: Seq<char>,
    code: [usize; 3],
    step: bool,
    text: Seq<char>,
)
    requires
        stack_ok(stack),
        plug_ok(pb),
        code_ok(code),
        text_ok(text),
    ensures
        keyed(stack, pb, mid, right, code, step, text).len() == text.len(),
        forall|i: int|
            0 <= i < text.len() && !white_space(text[i]) ==> #[trigger] keyed(
                stack,
                pb,
                mid,
                right,
                code,
                step,
                text,
            )[i] != text[i],
    decreases text.len(),
{
    let out = keyed(stack, pb, mid, right, code, step, text);
    if text.len() > 0 {
        let c = text[0];
        let rest = text.drop_first();
        assert(text_ok(rest)) by {
            assert forall|i: int| 0 <= i < rest.len() implies white_space(#[trigger] rest[i])
                || upper(rest[i]) by {
                assert(rest[i] == text[i + 1]);
            }
        }
        assert(white_space(text[0]) || upper(text[0]));
        let (code2, step2) = advance(code, step, mid, right);
        lemma_advance_ok(code, step, mid, right);
        if white_space(c) {
            lemma_keyed_never_same(stack, pb, mid, right, code, step, rest);
            let kr = keyed(stack, pb, mid, right, code, step, rest);
            assert(out == seq![c] + kr);
            assert forall|i: int| 0 <= i < text.len() && !white_space(text[i]) implies #[trigger] out[i]
                != text[i] by {
                assert(i > 0);
                assert(out[i] == kr[i - 1]);
                assert(rest[i - 1] == text[i]);
            }
        } else {
            lemma_keyed_never_same(stack, pb, mid, right, code2, step2, rest);
            lemma_press(stack, pb, code2, c);
            let kr = keyed(stack, pb, mid, right, code2, step2, rest);
            assert(out == seq![letter(press(stack, pb, code2, c))] + kr);
            assert forall|i: int| 0 <= i < text.len() && !white_space(text[i]) implies #[trigger] out[i]
                != text[i] by {
                if i > 0 {
                    assert(out[i] == kr[i - 1]);
                    assert(rest[i - 1] == text[i]);
                }
            }
        }
    }
}

} // verus!
