use staccato::KeyValueSep;

#[test]
fn test_key_value_sep_get_sep() {
    assert_eq!("\t", KeyValueSep::Tab.get_sep());
    assert_eq!(": ", KeyValueSep::Colon.get_sep());
    assert_eq!(" => ", KeyValueSep::Other(" => ".to_string()).get_sep());
}

#[test]
fn test_key_value_sep_display() {
    assert_eq!("\t".to_string(), KeyValueSep::Tab.to_string());
    assert_eq!(": ".to_string(), KeyValueSep::Colon.to_string());
    assert_eq!(" => ".to_string(), KeyValueSep::Other(" => ".to_string()).to_string());
}

#[test]
fn test_key_value_sep_from_str() {
    assert_eq!(KeyValueSep::Tab, "tab".parse::<KeyValueSep>().unwrap());
    assert_eq!(KeyValueSep::Colon, "colon".parse::<KeyValueSep>().unwrap());
    assert_eq!(KeyValueSep::Other(" => ".to_string()), " => ".parse::<KeyValueSep>().unwrap());
}

#[test]
fn separator_names_are_exact() {
    assert_eq!(KeyValueSep::Other("Tab".to_string()), "Tab".parse::<KeyValueSep>().unwrap());
    assert_eq!(KeyValueSep::Other("tab ".to_string()), "tab ".parse::<KeyValueSep>().unwrap());
    assert_eq!(KeyValueSep::Other("".to_string()), "".parse::<KeyValueSep>().unwrap());
}

#[test]
fn separator_default_is_colon() {
    assert_eq!(KeyValueSep::Colon, KeyValueSep::default());
}

#[test]
fn parsed_separator_text() {
    assert_eq!("\t", "tab".parse::<KeyValueSep>().unwrap().get_sep());
    assert_eq!(": ", "colon".parse::<KeyValueSep>().unwrap().get_sep());
    assert_eq!(" | ", " | ".parse::<KeyValueSep>().unwrap().get_sep());
}
