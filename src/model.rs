//! The state of a converter view: two inputs, each with the text converted
//! from it, updated by one message per edit.
use vstd::prelude::*;
use vstd::utf8::encode_utf8;

use crate::decode::{decode_from_hex, decoded};
use crate::encode::{encode_to_hex, hex_of};

verus! {

/// The text typed in each input and what it converts to.
pub struct Model {
    pub utf8_input: String,
    pub hex_from_utf8: String,
    pub hex_input: String,
    pub ascii_from_hex: String,
}

/// An edit of one of the two inputs, carrying the input's new text.
pub enum Msg {
    Utf8Typed(String),
    HexTyped(String),
}

impl Model {
    /// Each output is the conversion of its input.
    pub open spec fn wf(&self) -> bool {
        &&& self.hex_from_utf8@ == hex_of(encode_utf8(self.utf8_input@))
        &&& self.ascii_from_hex@ == decoded(self.hex_input@)
    }

    /// A view with every text empty.
    pub fn create() -> (m: Model)
        ensures
            m.utf8_input@.len() == 0,
            m.hex_from_utf8@.len() == 0,
            m.hex_input@.len() == 0,
            m.ascii_from_hex@.len() == 0,
            m.wf(),
    {
        let m = Model {
            utf8_input: String::new(),
            hex_from_utf8: String::new(),
            hex_input: String::new(),
            ascii_from_hex: String::new(),
        };
        assert(encode_utf8(m.utf8_input@) =~= Seq::empty());
        m
    }

    /// Takes the new text of the edited input and converts it; the other
    /// input and its output stay as they were. The view is always to be
    /// drawn again.
    pub fn update(&mut self, msg: Msg) -> (should_render: bool)
        ensures
            should_render,
            match msg {
                Msg::Utf8Typed(text) => {
                    &&& final(self).utf8_input@ == text@
                    &&& final(self).hex_from_utf8@ == hex_of(encode_utf8(text@))
                    &&& final(self).hex_input@ == old(self).hex_input@
                    &&& final(self).ascii_from_hex@ == old(self).ascii_from_hex@
                },
                Msg::HexTyped(text) => {
                    &&& final(self).utf8_input@ == old(self).utf8_input@
                    &&& final(self).hex_from_utf8@ == old(self).hex_from_utf8@
                    &&& final(self).hex_input@ == text@
                    &&& final(self).ascii_from_hex@ == decoded(text@)
                },
            },
            old(self).wf() ==> final(self).wf(),
    {
        match msg {
            Msg::Utf8Typed(utf8) => {
                let hex = encode_to_hex(utf8.as_str());
                self.utf8_input = utf8;
                self.hex_from_utf8 = hex;
                true
            },
            Msg::HexTyped(hex) => {
                let ascii = decode_from_hex(hex.as_str());
                self.hex_input = hex;
                self.ascii_from_hex = ascii;
                true
            },
        }
    }
}

} // verus!
