//! Reading infrared capture files and decoding the raw pulse trains they hold.
//!
//! A capture file lists the buttons of one remote control, some already
//! decoded, some as raw pulse timings. [`parse`] holds the grammar of such
//! files and reads their text into [`button::Button`]s. [`analyze`] takes
//! timing thresholds from all raw buttons together, tells whether the bits
//! are carried by the marks or by the spaces of the pulses, and decodes every
//! raw button into bits. [`capture`] goes from the text to the report in one
//! step.
//!
//! Every function is verified against a specification over sequences of
//! bytes and of pulse pairs. The specification of a function `f` that reads
//! input is the function `spec_f`; what types stand for is given by their
//! views.

pub mod analyze;
pub mod button;
pub mod capture;
pub mod error;
pub mod metrics;
pub mod number;
pub mod parse;
pub mod report;
pub mod text;
