use compute_kernels::{
    analyze_text, calculate_primes, char_is_white_space, count_distinct, escape_color, fibonacci,
    format_summary, lower_words, parse_operation, render_escape_counts, run_operation,
    sort_large_array, split_words, text_chars, text_stats, Operation, Outcome,
};

fn is_prime_naive(p: u32) -> bool {
    p >= 2 && (2..p).all(|d| p % d != 0)
}

#[test]
fn primes_below_two_are_empty() {
    assert!(calculate_primes(0).is_empty());
    assert!(calculate_primes(1).is_empty());
}

#[test]
fn primes_up_to_ten() {
    assert_eq!(calculate_primes(10), vec![2, 3, 5, 7]);
    assert_eq!(calculate_primes(2), vec![2]);
    assert_eq!(calculate_primes(3), vec![2, 3]);
}

#[test]
fn primes_up_to_thousand_are_exactly_the_primes() {
    let r = calculate_primes(1000);
    assert_eq!(r.len(), 168);
    assert!(r.windows(2).all(|w| w[0] < w[1]));
    let expected: Vec<u32> = (0..=1000).filter(|&q| is_prime_naive(q)).collect();
    assert_eq!(r, expected);
}

#[test]
fn primes_include_square_bound() {
    assert_eq!(calculate_primes(49), vec![2, 3, 5, 7, 11, 13, 17, 19, 23, 29, 31, 37, 41, 43, 47]);
    assert_eq!(*calculate_primes(7919).last().unwrap(), 7919);
}

#[test]
fn escape_colors() {
    assert_eq!(escape_color(50, 50), [0, 0, 0, 255]);
    assert_eq!(escape_color(0, 0), [0, 0, 0, 255]);
    assert_eq!(escape_color(0, 50), [0, 0, 255, 255]);
    assert_eq!(escape_color(25, 50), [127, 63, 128, 255]);
    assert_eq!(escape_color(49, 50), [249, 124, 6, 255]);
    assert_eq!(escape_color(1, 3), [85, 42, 170, 255]);
}

fn escape_count(x0: f64, y0: f64, max_iterations: u32) -> u32 {
    let mut x = 0.0f64;
    let mut y = 0.0f64;
    let mut iteration = 0u32;
    while x * x + y * y <= 4.0 && iteration < max_iterations {
        let xtemp = x * x - y * y + x0;
        y = 2.0 * x * y + y0;
        x = xtemp;
        iteration += 1;
    }
    iteration
}

#[test]
fn mandelbrot_view_size_and_interior() {
    let (width, height, max_iterations) = (100u32, 100u32, 50u32);
    let (zoom, offset_x, offset_y) = (3.0f64, -0.5f64, 0.0f64);
    let mut counts = Vec::new();
    for py in 0..height {
        for px in 0..width {
            let x0 = (px as f64 / width as f64 - 0.5) * zoom + offset_x;
            let y0 = (py as f64 / height as f64 - 0.5) * zoom + offset_y;
            counts.push(escape_count(x0, y0, max_iterations));
        }
    }
    let data = render_escape_counts(width, height, max_iterations, &counts);
    assert_eq!(data.len(), 40_000);
    let centre = ((50 * width + 50) * 4) as usize;
    assert_eq!(&data[centre..centre + 4], &[0, 0, 0, 255]);
    let corner = &data[0..4];
    assert_eq!(corner[3], 255);
    assert_ne!(corner, &[0, 0, 0, 255]);
}

#[test]
fn render_places_pixels_row_major() {
    let counts = vec![0, 1, 2, 3, 4, 5];
    let data = render_escape_counts(3, 2, 4, &counts);
    assert_eq!(data.len(), 24);
    assert_eq!(&data[0..4], &[0, 0, 255, 255]);
    assert_eq!(&data[4..8], &[63, 31, 192, 255]);
    assert_eq!(&data[8..12], &[127, 63, 128, 255]);
    assert_eq!(&data[12..16], &[191, 95, 64, 255]);
    assert_eq!(&data[16..20], &[0, 0, 0, 255]);
    assert_eq!(&data[20..24], &[0, 0, 0, 255]);
}

#[test]
fn render_empty_dimension() {
    assert!(render_escape_counts(0, 10, 50, &Vec::new()).is_empty());
    assert!(render_escape_counts(10, 0, 50, &Vec::new()).is_empty());
}

#[test]
fn fibonacci_known_values() {
    assert_eq!(fibonacci(0), 0);
    assert_eq!(fibonacci(1), 1);
    assert_eq!(fibonacci(2), 1);
    assert_eq!(fibonacci(10), 55);
    assert_eq!(fibonacci(20), 6765);
    assert_eq!(fibonacci(93), 12200160415121876738);
}

#[test]
fn fibonacci_wraps_past_u64() {
    assert_eq!(fibonacci(94), 1293530146158671551);
}

#[test]
fn fibonacci_non_decreasing_without_wrap() {
    for n in 0..93u32 {
        assert!(fibonacci(n) <= fibonacci(n + 1));
    }
}

#[test]
fn sort_example() {
    assert_eq!(sort_large_array(vec![5, 3, 1, 4, 1, 5, 9]), vec![1, 1, 3, 4, 5, 5, 9]);
}

#[test]
fn sort_edge_cases() {
    assert_eq!(sort_large_array(Vec::new()), Vec::<i32>::new());
    assert_eq!(
        sort_large_array(vec![i32::MAX, 0, i32::MIN, -1]),
        vec![i32::MIN, -1, 0, i32::MAX]
    );
}

#[test]
fn sort_is_idempotent() {
    let once = sort_large_array(vec![9, -2, 7, 7, 0, 3]);
    let twice = sort_large_array(once.clone());
    assert_eq!(once, twice);
    assert_eq!(once, vec![-2, 0, 3, 7, 7, 9]);
}

#[test]
fn analyze_text_example() {
    assert_eq!(
        analyze_text("The quick brown fox the QUICK fox"),
        "Words: 7, Chars: 33, Unique: 4"
    );
    let s = text_stats("The quick brown fox the QUICK fox");
    assert_eq!(s.word_count, 7);
    assert_eq!(s.char_count, 33);
    assert_eq!(s.unique_word_count, 4);
}

#[test]
fn analyze_text_empty_and_blank() {
    assert_eq!(analyze_text(""), "Words: 0, Chars: 0, Unique: 0");
    let s = text_stats("  \t\n ");
    assert_eq!((s.word_count, s.char_count, s.unique_word_count), (0, 5, 0));
}

#[test]
fn analyze_text_unicode() {
    let s = text_stats("  ÄBC\u{a0}äbc\u{3000}Äbc  ");
    assert_eq!((s.word_count, s.char_count, s.unique_word_count), (3, 15, 1));
    let t = text_stats("ΣΑΣ σας");
    assert_eq!((t.word_count, t.char_count, t.unique_word_count), (2, 7, 1));
}

#[test]
fn analyze_text_multidigit_counts() {
    let text = "a b c d e f g h i j k";
    assert_eq!(analyze_text(text), "Words: 11, Chars: 21, Unique: 11");
}

#[test]
fn benchmark_operation_names() {
    assert_eq!(parse_operation("primes"), Operation::Primes);
    assert_eq!(parse_operation("fibonacci"), Operation::Fibonacci);
    assert_eq!(parse_operation("unknown"), Operation::Unknown);
    assert_eq!(parse_operation("Primes"), Operation::Unknown);
    assert_eq!(parse_operation(""), Operation::Unknown);
}

#[test]
fn benchmark_runs_selected_kernel() {
    match run_operation(Operation::Primes, 10) {
        Outcome::Primes(r) => assert_eq!(r, vec![2, 3, 5, 7]),
        other => panic!("unexpected outcome {:?}", other),
    }
    match run_operation(Operation::Fibonacci, 20) {
        Outcome::Fibonacci(v) => assert_eq!(v, 6765),
        other => panic!("unexpected outcome {:?}", other),
    }
    assert!(matches!(run_operation(parse_operation("unknown"), 1000), Outcome::Nothing));
    assert!(matches!(run_operation(parse_operation("Primes"), u32::MAX), Outcome::Nothing));
}

#[test]
fn benchmark_fibonacci_at_largest_size() {
    assert!(matches!(run_operation(Operation::Fibonacci, 100_000), Outcome::Fibonacci(_)));
}

#[test]
fn whitespace_classification() {
    for c in [' ', '\t', '\n', '\r', '\u{b}', '\u{c}', '\u{85}', '\u{a0}', '\u{2003}', '\u{3000}'] {
        assert!(char_is_white_space(c));
        assert!(c.is_whitespace());
    }
    for c in ['a', '0', '_', '\u{200b}', '\u{feff}'] {
        assert!(!char_is_white_space(c));
        assert!(!c.is_whitespace());
    }
}

#[test]
fn split_and_fold_words() {
    let chars = text_chars(" Ab  cD\te ");
    let ws = split_words(&chars);
    assert_eq!(ws, vec![vec!['A', 'b'], vec!['c', 'D'], vec!['e']]);
    let lowered = lower_words(&ws);
    assert_eq!(lowered, vec!["ab".to_string(), "cd".to_string(), "e".to_string()]);
}

#[test]
fn count_distinct_given_strings() {
    let ws: Vec<String> = vec!["the".into(), "fox".into(), "the".into(), "Fox".into()];
    assert_eq!(count_distinct(&ws), 3);
    assert_eq!(count_distinct(&Vec::new()), 0);
}

#[test]
fn summary_layout() {
    assert_eq!(format_summary(0, 1234567890, 10), "Words: 0, Chars: 1234567890, Unique: 10");
    assert_eq!(
        format_summary(usize::MAX, 9, 100),
        format!("Words: {}, Chars: 9, Unique: 100", usize::MAX)
    );
}
