# sdr

The logic of a software defined radio workstation, written in Rust and verified with
Verus: the functions under `src/` have contracts that are proved, but for a few small ones that
call the standard library or another crate and say so.

* `src/` is the library.
  * Collections: `chunked_deque`, `seqdeque`, `indexed`, `search`, `maps`,
    `channel_table`.
  * Documents and recording: `document`, `active_document`, `playback`.
  * Receiving: `hardware`, `device_table`, `rx_channel`, `rx_thread`, `raw_history`,
    `history_worker`.
  * Processing: `analysis`, `processing`, `preprocessor`, `dsp`, `fm_channel`,
    `fm_processor`, `stream_processor`, `waterfall`, `modulation_fm`, `processor`.
  * What is shown: `document_graphics`, `clip_graphics`, `stream_history`,
    `waterfall_history`, `waterfall_gpu`, `textures`, `mip`, `canvas`, `fm_history`,
    `fm_ui`, `processor_graphics`, `channels_gpu`, `ui`, `format`, `band_info`.
  * Sound and speech: `audio`, `asr_provider`.
* `tests/` runs the library on concrete values.
* `app/` is the program around it: windows, the graphics card, the radio, sound, files,
  threads and floating point arithmetic.

Floating point numbers are carried through the library by their bits (`double`), so that
they can be compared there; what is computed with them is computed in `app/`. Textures are
numbers in the library, which returns what has to be done to them as lists of commands.
