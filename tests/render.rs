use staccato::{decimal_string, field_key_string, render, KeyValueSep, StatisticsText, NUM_FIELDS};

fn group(percentile: Option<u8>, count: usize, vals: [&str; 6]) -> StatisticsText {
    StatisticsText {
        percentile,
        count,
        sum: vals[0].to_string(),
        mean: vals[1].to_string(),
        upper: vals[2].to_string(),
        lower: vals[3].to_string(),
        median: vals[4].to_string(),
        stddev: vals[5].to_string(),
    }
}

fn sample() -> Vec<StatisticsText> {
    vec![
        group(None, 6, ["36.00000", "6.00000", "12.00000", "1.00000", "6.00000", "3.82971"]),
        group(Some(50), 3, ["8.00000", "2.66667", "5.00000", "1.00000", "2.00000", "1.69967"]),
    ]
}

#[test]
fn decimal_string_writes_digits() {
    assert_eq!("0", decimal_string(0));
    assert_eq!("7", decimal_string(7));
    assert_eq!("10", decimal_string(10));
    assert_eq!("1234567", decimal_string(1234567));
    assert_eq!(usize::MAX.to_string(), decimal_string(usize::MAX));
}

#[test]
fn field_keys_carry_percentile() {
    assert_eq!("count", field_key_string(0, None));
    assert_eq!("stddev", field_key_string(6, None));
    assert_eq!("count_90", field_key_string(0, Some(90)));
    assert_eq!("median_5", field_key_string(5, Some(5)));
    assert_eq!("upper_99", field_key_string(3, Some(99)));
}

#[test]
fn render_with_colon() {
    let expected = "count: 6.00000\nsum: 36.00000\nmean: 6.00000\nupper: 12.00000\nlower: 1.00000\n\
                    median: 6.00000\nstddev: 3.82971\n\
                    count_50: 3.00000\nsum_50: 8.00000\nmean_50: 2.66667\nupper_50: 5.00000\n\
                    lower_50: 1.00000\nmedian_50: 2.00000\nstddev_50: 1.69967\n";
    assert_eq!(expected, render(&sample(), &KeyValueSep::Colon));
}

#[test]
fn render_with_tab_and_other() {
    let groups = vec![group(None, 1, ["13.00000", "13.00000", "13.00000", "13.00000", "13.00000", "0.00000"])];
    assert_eq!(
        "count\t1.00000\nsum\t13.00000\nmean\t13.00000\nupper\t13.00000\nlower\t13.00000\nmedian\t13.00000\nstddev\t0.00000\n",
        render(&groups, &KeyValueSep::Tab)
    );
    assert_eq!(
        "count => 1.00000\nsum => 13.00000\nmean => 13.00000\nupper => 13.00000\nlower => 13.00000\nmedian => 13.00000\nstddev => 0.00000\n",
        render(&groups, &KeyValueSep::Other(" => ".to_string()))
    );
}

#[test]
fn render_nothing() {
    assert_eq!("", render(&Vec::new(), &KeyValueSep::Colon));
}

#[test]
fn changing_separator_changes_only_the_join() {
    let groups = sample();
    let a = render(&groups, &KeyValueSep::Colon);
    let b = render(&groups, &KeyValueSep::Other(" => ".to_string()));
    let la: Vec<&str> = a.lines().collect();
    let lb: Vec<&str> = b.lines().collect();
    assert_eq!(NUM_FIELDS * groups.len(), la.len());
    assert_eq!(la.len(), lb.len());
    for (x, y) in la.iter().zip(lb.iter()) {
        let (kx, vx) = x.split_once(": ").unwrap();
        let (ky, vy) = y.split_once(" => ").unwrap();
        assert_eq!(kx, ky);
        assert_eq!(vx, vy);
    }
}

#[test]
fn count_has_five_decimals() {
    let groups = sample();
    assert_eq!("6.00000", groups[0].field_value_string(0));
    assert_eq!("3.00000", groups[1].field_value_string(0));
    assert_eq!("8.00000", groups[1].field_value_string(1));
}
