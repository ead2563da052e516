//! The logic of a software defined radio workstation: recording received
//! samples into documents, walking those documents to process them, and keeping
//! track of what is shown and played back.

pub mod active_document;
pub mod analysis;
pub mod asr_provider;
pub mod audio;
pub mod band_info;
pub mod by_ptr;
pub mod canvas;
pub mod channel_table;
pub mod channels_gpu;
pub mod chunked_deque;
pub mod clip_graphics;
pub mod device_table;
pub mod document;
pub mod document_graphics;
pub mod double;
pub mod dsp;
pub mod duration_ext;
pub mod fm_channel;
pub mod fm_history;
pub mod fm_processor;
pub mod fm_ui;
pub mod format;
pub mod hardware;
pub mod history_worker;
pub mod id_factory;
pub mod indexed;
pub mod maps;
pub mod mip;
pub mod modulation_fm;
pub mod playback;
pub mod preprocessor;
pub mod processing;
pub mod processor;
pub mod processor_graphics;
pub mod raw_history;
pub mod rx_channel;
pub mod rx_thread;
pub mod search;
pub mod seqdeque;
mod shared;
pub mod stream_history;
pub mod stream_processor;
pub mod text;
pub mod textures;
pub mod time;
pub mod ui;
pub mod waterfall;
pub mod waterfall_gpu;
pub mod waterfall_history;
