//! The protocol engine: byte tokenizer, token dispatcher and the handlers of
//! each escape-sequence family.

pub mod csi_sequence_handler;
pub mod dcs_sequence_handler;
pub mod dispatcher;
pub mod handler_context;
pub mod sgr_sequence_handler;
pub mod vt100_sequence_handler;
pub mod osc_sequence_handler;
pub mod params;
pub mod scan;
pub mod sequence_tokenizer;
pub mod sequence_token;
