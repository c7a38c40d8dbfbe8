mod pixels;

pub use pixels::{
    handed_out, lemma_interleaved_takes, lemma_row_major, take_run, take_step, Pixel, Pixels,
};
