//! A rotor cipher machine: plugboard, stepping wheels and reflector, with the
//! signal path and the stepping rule stated and proved.
pub mod rotors;
pub mod circuit;
pub mod enigma;
