//! The buttons of a capture file.

use vstd::prelude::*;

verus! {

/// A button that was stored already decoded: three opaque texts.
#[derive(Clone, Debug, PartialEq, Eq)]
pub struct ParsedButton {
    pub protocol: Vec<u8>,
    pub address: Vec<u8>,
    pub command: Vec<u8>,
}

/// A button stored as pulse timings.
#[derive(Clone, Debug, PartialEq, Eq)]
pub struct RawButton {
    /// Carrier frequency in Hz.
    pub frequency: u32,
    /// Carrier duty cycle, as the decimal literal that the file holds.
    pub duty_cycle: Vec<u8>,
    /// `(mark, space)` pairs in microseconds; the first pair is the preamble.
    pub data: Vec<(u32, u32)>,
    /// A last mark that no space follows.
    pub final_on: Option<u32>,
}

/// What a button holds besides its name.
#[derive(Clone, Debug, PartialEq, Eq)]
pub enum ButtonKind {
    Parsed(ParsedButton),
    Raw(RawButton),
}

/// One named entry of a capture file.
#[derive(Clone, Debug, PartialEq, Eq)]
pub struct Button {
    pub name: Vec<u8>,
    pub kind: ButtonKind,
}

/// A [`ParsedButton`] as plain sequences.
pub struct ParsedButtonView {
    pub protocol: Seq<u8>,
    pub address: Seq<u8>,
    pub command: Seq<u8>,
}

/// A [`RawButton`] as plain sequences.
pub struct RawButtonView {
    pub frequency: u32,
    pub duty_cycle: Seq<u8>,
    pub data: Seq<(u32, u32)>,
    pub final_on: Option<u32>,
}

/// A [`ButtonKind`] as plain sequences.
pub enum ButtonKindView {
    Parsed(ParsedButtonView),
    Raw(RawButtonView),
}

/// A [`Button`] as plain sequences.
pub struct ButtonView {
    pub name: Seq<u8>,
    pub kind: ButtonKindView,
}

impl View for ParsedButton {
    type V = ParsedButtonView;

    open spec fn view(&self) -> ParsedButtonView {
        ParsedButtonView {
            protocol: self.protocol@,
            address: self.address@,
            command: self.command@,
        }
    }
}

impl DeepView for ParsedButton {
    type V = ParsedButtonView;

    open spec fn deep_view(&self) -> ParsedButtonView {
        self@
    }
}

impl View for RawButton {
    type V = RawButtonView;

    open spec fn view(&self) -> RawButtonView {
        RawButtonView {
            frequency: self.frequency,
            duty_cycle: self.duty_cycle@,
            data: self.data@,
            final_on: self.final_on,
        }
    }
}

impl DeepView for RawButton {
    type V = RawButtonView;

    open spec fn deep_view(&self) -> RawButtonView {
        self@
    }
}

impl View for ButtonKind {
    type V = ButtonKindView;

    open spec fn view(&self) -> ButtonKindView {
        match *self {
            ButtonKind::Parsed(parsed) => ButtonKindView::Parsed(parsed@),
            ButtonKind::Raw(raw) => ButtonKindView::Raw(raw@),
        }
    }
}

impl DeepView for ButtonKind {
    type V = ButtonKindView;

    open spec fn deep_view(&self) -> ButtonKindView {
        self@
    }
}

impl View for Button {
    type V = ButtonView;

    open spec fn view(&self) -> ButtonView {
        ButtonView { name: self.name@, kind: self.kind@ }
    }
}

impl DeepView for Button {
    type V = ButtonView;

    open spec fn deep_view(&self) -> ButtonView {
        self@
    }
}

impl RawButtonView {
    /// The preamble: the first pulse pair, where there is one.
    pub open spec fn preamble(self) -> Seq<(u32, u32)> {
        if self.data.len() > 0 {
            seq![self.data[0]]
        } else {
            Seq::empty()
        }
    }

    /// The pulse pairs after the preamble: the candidates for bits.
    pub open spec fn pulses(self) -> Seq<(u32, u32)> {
        if self.data.len() > 0 {
            self.data.skip(1)
        } else {
            Seq::empty()
        }
    }
}

impl ButtonView {
    /// The pulse pairs of a raw button; none for a parsed one.
    pub open spec fn data(self) -> Seq<(u32, u32)> {
        match self.kind {
            ButtonKindView::Raw(raw) => raw.data,
            ButtonKindView::Parsed(_) => Seq::empty(),
        }
    }

    /// The preamble of a raw button that has one.
    pub open spec fn preamble(self) -> Seq<(u32, u32)> {
        match self.kind {
            ButtonKindView::Raw(raw) => raw.preamble(),
            ButtonKindView::Parsed(_) => Seq::empty(),
        }
    }

    /// The pulse pairs after the preamble of a raw button.
    pub open spec fn pulses(self) -> Seq<(u32, u32)> {
        match self.kind {
            ButtonKindView::Raw(raw) => raw.pulses(),
            ButtonKindView::Parsed(_) => Seq::empty(),
        }
    }
}

} // verus!
