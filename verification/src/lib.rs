//! Prediction engine for byte-exact reconstruction of DEFLATE streams.
//!
//! Given the plaintext of a DEFLATE stream, the predictors in this crate replay
//! the choices a zlib-family encoder would have made and describe the stream
//! as a short sequence of corrections to those predictions.

pub mod bit_helper;
pub mod block_stream;
pub mod block_stream_laws;
pub mod byte_reader;
pub mod estimator_laws;
pub mod hash_chain;
pub mod huffman_calc;
pub mod huffman_encoding;
pub mod predictor_state;
pub mod preflate_complevel_estimator;
pub mod preflate_constants;
pub mod preflate_error;
pub mod preflate_hash_chain;
pub mod preflate_input;
pub mod preflate_parameter_estimator;
pub mod preflate_parse_config;
pub mod preflate_token;
pub mod replay_laws;
pub mod statistical_codec;
pub mod token_predictor;
pub mod token_predictor_laws;
pub mod tree_predictor;
pub mod tree_predictor_laws;
pub mod zip_bit_reader;
pub mod zip_structs;
