//! CPU-bound numeric and text kernels: prime enumeration, Mandelbrot pixel
//! colouring, Fibonacci numbers, integer sorting and text statistics.
pub mod benchmark;
pub mod fractal;
pub mod primes;
pub mod sequence;
pub mod sorting;
pub mod text;

pub use benchmark::{parse_operation, run_operation, Operation, Outcome};
pub use fractal::{escape_color, render_escape_counts};
pub use primes::calculate_primes;
pub use sequence::fibonacci;
pub use sorting::sort_large_array;
pub use text::{
    analyze_text, char_is_white_space, count_distinct, format_summary, lower_words, split_words,
    text_chars, text_stats, TextStats,
};
