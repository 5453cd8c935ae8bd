use std::collections::HashMap;

use enigma::circuit::{Circuit, Index};
use enigma::enigma::{Enigma, EnigmaError, Stecker};
use enigma::rotors::{Reflector, Rotor, Rotors, Wheel};

fn identity_plugboard() -> Stecker {
    let mut plugboard: Stecker = HashMap::new();
    for c in 'A'..='Z' {
        plugboard.insert(c as u32, c as u32);
    }
    plugboard
}

fn classic() -> Enigma {
    Enigma::from_config(&["i", "ii", "iii"], "ukwb", None, None).unwrap()
}

#[test]
pub fn test_node_stepping() {
    let mut circuit = Circuit::default();

    loop {
        if !circuit.node_step() {
            break;
        }
    }
    assert_eq!(circuit.node.front, 7);
    assert_eq!(circuit.node.back, -1);
}

#[test]
pub fn create_enigma() {
    let plugboard = identity_plugboard();

    let enigma = Enigma {
        wheels: Rotors {
            reflector: Reflector::UKWB,
            rotors: vec![
                Wheel::Rotor(Rotor::I),
                Wheel::Rotor(Rotor::II),
                Wheel::Rotor(Rotor::III),
            ],
        },
        circuit: Circuit {
            code: [0, 0, 0],
            node: Index {
                front: 0,
                back: 6 / 2 - 1,
            },
            step: false,
            len: 4,
            turnovers: vec!["Q".to_string(), "E".to_string(), "V".to_string()],
        },
        plugboard,
    };

    assert_eq!(enigma, Enigma::new());
}

#[test]
pub fn create_enigma_w_config() {
    let plugboard = identity_plugboard();

    let enigma = Enigma {
        wheels: Rotors {
            reflector: Reflector::UKWB,
            rotors: vec![
                Wheel::Rotor(Rotor::I),
                Wheel::Rotor(Rotor::II),
                Wheel::Rotor(Rotor::III),
            ],
        },
        circuit: Circuit {
            code: [0, 0, 0],
            node: Index {
                front: 0,
                back: 6 / 2 - 1,
            },
            step: false,
            len: 4,
            turnovers: vec!["Q".to_string(), "E".to_string(), "V".to_string()],
        },
        plugboard,
    };

    assert_eq!(
        enigma,
        Enigma::from_config(&["i", "ii", "iii"], "ukwb", None, None).unwrap()
    );
}

#[test]
pub fn create_enigma_w_config_w_m4m3combos() {
    let plugboard = [('X', 'S'), ('F', 'V')];
    let _code = Some(['Q', 'E', 'V']);

    let mut enigma =
        Enigma::from_config(&["i", "ii", "iii"], "ukwc", None, Some(&plugboard)).unwrap();

    println!("{}", enigma.encode("WTPXFMWXLIW").unwrap())
}

#[test]
fn historical_five_letters() {
    let mut enigma = classic();
    assert_eq!(enigma.encode("AAAAA").unwrap(), "BDZGO");
}

#[test]
fn white_space_passes_and_does_not_step() {
    let mut enigma = classic();
    assert_eq!(enigma.encode("AAA AA").unwrap(), "BDZ GO");
    let mut other = classic();
    assert_eq!(other.encode(" \t\n").unwrap(), " \t\n");
    assert_eq!(other.circuit.code, [0, 0, 0]);
    assert!(!other.circuit.step);
}

#[test]
fn hello_world_round_trip() {
    let plugs = [('X', 'S'), ('F', 'V')];
    let mut sender =
        Enigma::from_config(&["i", "ii", "iii"], "ukwc", Some(['Q', 'E', 'V']), Some(&plugs))
            .unwrap();
    let mut receiver =
        Enigma::from_config(&["i", "ii", "iii"], "ukwc", Some(['Q', 'E', 'V']), Some(&plugs))
            .unwrap();
    let secret = sender.encode("HELLOWORLD").unwrap();
    assert_ne!(secret, "HELLOWORLD");
    assert_eq!(secret.len(), 10);
    assert_eq!(receiver.decode(&secret).unwrap(), "HELLOWORLD");
}

#[test]
fn right_wheel_steps_once_per_letter() {
    let mut enigma = classic();
    enigma.encode("ABCDE").unwrap();
    assert_eq!(enigma.circuit.code, [0, 0, 5]);
    enigma.encode("FG HI").unwrap();
    assert_eq!(enigma.circuit.code, [0, 0, 9]);
}

#[test]
fn middle_wheel_double_steps() {
    let mut enigma =
        Enigma::from_config(&["i", "ii", "iii"], "ukwb", Some(['A', 'D', 'U']), None).unwrap();
    enigma.encode("A").unwrap();
    assert_eq!(enigma.circuit.code, [0, 3, 21]);
    enigma.encode("A").unwrap();
    assert_eq!(enigma.circuit.code, [0, 4, 22]);
    enigma.encode("A").unwrap();
    assert_eq!(enigma.circuit.code, [1, 5, 23]);
}

#[test]
fn plugboard_swaps_both_ways() {
    let plugs = [('X', 'S'), ('F', 'V')];
    let enigma = Enigma::from_config(&["i", "ii", "iii"], "ukwc", None, Some(&plugs)).unwrap();
    let pb = &enigma.plugboard;
    assert_eq!(pb[&('X' as u32)], 'S' as u32);
    assert_eq!(pb[&('S' as u32)], 'X' as u32);
    assert_eq!(pb[&('F' as u32)], 'V' as u32);
    assert_eq!(pb[&pb[&('V' as u32)]], 'V' as u32);
    assert_eq!(pb[&('A' as u32)], 'A' as u32);
}

#[test]
fn no_letter_enciphers_to_itself() {
    for c in 'A'..='Z' {
        for start in [['A', 'A', 'A'], ['Q', 'E', 'V'], ['Z', 'Z', 'Z']] {
            let mut enigma =
                Enigma::from_config(&["iv", "v", "vi"], "ukwc", Some(start), None).unwrap();
            let out = enigma.encode(&c.to_string()).unwrap();
            assert_ne!(out, c.to_string());
        }
    }
}

#[test]
fn naval_machine_round_trip() {
    let plugs = [('A', 'B'), ('Q', 'Z')];
    let wheels = ["beta", "ii", "iv", "i"];
    let mut sender = Enigma::from_config(&wheels, "bthin", Some(['V', 'J', 'N']), Some(&plugs))
        .unwrap();
    let mut receiver =
        Enigma::from_config(&wheels, "bthin", Some(['V', 'J', 'N']), Some(&plugs)).unwrap();
    let text = "THE QUICK BROWN FOX JUMPS OVER THE LAZY DOG";
    let secret = sender.encode(text).unwrap();
    assert_eq!(secret.len(), text.len());
    assert_ne!(secret, text);
    assert_eq!(receiver.decode(&secret).unwrap(), text);
    assert_eq!(sender.wheels.rotors.len(), 4);
    assert_eq!(sender.circuit.len, 5);
}

#[test]
fn from_wheels_builds_the_classic_machine() {
    let mut enigma = Enigma::from_wheels(&["i", "ii", "iii"], "ukwb").unwrap();
    assert_eq!(enigma, Enigma::new());
    assert_eq!(enigma.encode("AAAAA").unwrap(), "BDZGO");
}

#[test]
fn configuration_errors() {
    assert_eq!(
        Enigma::from_config(&["i", "ii"], "ukwb", None, None),
        Err(EnigmaError::InvalidConfiguration)
    );
    assert_eq!(
        Enigma::from_config(&["i", "ii", "iii", "iv", "v"], "ukwb", None, None),
        Err(EnigmaError::InvalidConfiguration)
    );
    assert_eq!(
        Enigma::from_config(&["i", "ix", "iii"], "ukwb", None, None),
        Err(EnigmaError::UnknownWheel)
    );
    assert_eq!(
        Enigma::from_config(&["beta", "beta", "ii", "iii"], "ukwb", None, None),
        Err(EnigmaError::InvalidConfiguration)
    );
    assert_eq!(
        Enigma::from_config(&["i", "ii", "iii"], "ukwx", None, None),
        Err(EnigmaError::UnknownWheel)
    );
    assert_eq!(
        Enigma::from_config(&["i", "ii", "iii"], "bthin", None, None),
        Err(EnigmaError::InvalidConfiguration)
    );
    assert_eq!(
        Enigma::from_config(&["i", "ii", "iii"], "ukwb", Some(['a', 'B', 'C']), None),
        Err(EnigmaError::InvalidConfiguration)
    );
    assert_eq!(
        Enigma::from_config(
            &["i", "ii", "iii"],
            "ukwb",
            None,
            Some(&[('A', 'B'), ('B', 'C')])
        ),
        Err(EnigmaError::InvalidConfiguration)
    );
    assert_eq!(
        Enigma::from_config(&["i", "ii", "iii"], "ukwb", None, Some(&[('A', '1')])),
        Err(EnigmaError::InvalidConfiguration)
    );
    assert!(Enigma::from_config(&["gamma", "i", "ii", "iii"], "cthin", None, None).is_ok());
}

#[test]
fn reflector_goes_with_wheel_count() {
    assert_eq!(
        Enigma::from_config(&["beta", "i", "ii", "iii"], "ukwb", None, None),
        Err(EnigmaError::InvalidConfiguration)
    );
    assert_eq!(
        Enigma::from_wheels(&["gamma", "i", "ii", "iii"], "ukwc"),
        Err(EnigmaError::InvalidConfiguration)
    );
    assert_eq!(
        Enigma::from_wheels(&["i", "ii", "iii"], "cthin"),
        Err(EnigmaError::InvalidConfiguration)
    );
    assert!(Enigma::from_wheels(&["beta", "i", "ii", "iii"], "bthin").is_ok());
    assert!(Enigma::from_wheels(&["i", "ii", "iii"], "ukwc").is_ok());
}

#[test]
fn plugboard_holds_exactly_the_letters() {
    let plugs = [('X', 'S'), ('F', 'V')];
    let enigma = Enigma::from_config(&["i", "ii", "iii"], "ukwc", None, Some(&plugs)).unwrap();
    assert_eq!(enigma.plugboard.len(), 26);
    for c in 'A'..='Z' {
        assert!(enigma.plugboard.contains_key(&(c as u32)));
    }
    assert_eq!(Enigma::new().plugboard, identity_plugboard());
}

#[test]
fn no_letter_kept_in_a_longer_text() {
    let mut enigma = classic();
    let text = "AAAAAAAAAAAAAAAAAAAAAAAAAAAAAAAAAAAAAAAAAAAAAAAAAAAAAAAAAAAAAAAAAAAAAAAAAAAAAAAAAA";
    let out = enigma.encode(text).unwrap();
    for (a, b) in text.chars().zip(out.chars()) {
        assert_ne!(a, b);
    }
}

#[test]
fn invalid_input_leaves_machine_unchanged() {
    let mut enigma = classic();
    assert_eq!(enigma.encode("AB1"), Err(EnigmaError::InvalidInput));
    assert_eq!(enigma.encode("hello"), Err(EnigmaError::InvalidInput));
    assert_eq!(enigma.circuit.code, [0, 0, 0]);
    assert_eq!(enigma.encode("AAAAA").unwrap(), "BDZGO");
}

#[test]
fn wheel_catalogue() {
    assert_eq!(Rotor::I.alpha(), "EKMFLGDQVZNTOWYHXUSPAIBRCJ");
    assert_eq!(Rotor::VIII.turnovers(), "ZM");
    assert_eq!(Rotor::BETA.turnovers(), "");
    assert_eq!(
        Wheel::Reflector(Reflector::UKWB).alpha(),
        "YRUHQSLDPXNGOKMIEBFZCWVJAT"
    );
    assert_eq!(Wheel::Rotor(Rotor::II).turnovers(), "E");
    assert_eq!(Rotor::from_name("vii"), Some(Rotor::VII));
    assert_eq!(Rotor::from_name("VII"), None);
    assert_eq!(Reflector::from_name("cthin"), Some(Reflector::CTHIN));
}

#[test]
fn circuit_signal_offsets() {
    let circuit = Circuit::new(
        &vec![
            Wheel::Rotor(Rotor::I),
            Wheel::Rotor(Rotor::II),
            Wheel::Rotor(Rotor::III),
        ],
        [1, 2, 3],
    );
    assert_eq!(circuit.pathway(), 6);
    assert_eq!(circuit.stopover(), 2);
    // The first step adds the right wheel's position.
    assert_eq!(circuit.signal('Z' as u32, [1, 2, 3]), 2);
    let naval = Circuit::new(
        &vec![
            Wheel::Rotor(Rotor::BETA),
            Wheel::Rotor(Rotor::I),
            Wheel::Rotor(Rotor::II),
            Wheel::Rotor(Rotor::III),
        ],
        [0, 0, 0],
    );
    assert_eq!(naval.pathway(), 8);
    assert_eq!(naval.stopover(), 3);
}
