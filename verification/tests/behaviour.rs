use adstxt::text::{
    chars_of, eq_chars, eq_ignore_ascii_case, lines, matches_ignoring_ascii_case, split,
    string_of, strip_prefix, trim, trim_end, trim_start,
};
use adstxt::{
    ads_txt_error, AccountRelation, AdsTxt, AdsTxtError, DataRecord, ErrorKind, Line, Variable,
};

fn strings(fields: Vec<&[char]>) -> Vec<String> {
    fields.into_iter().map(string_of).collect()
}

#[test]
fn relation_accepts_surrounding_whitespace() {
    assert_eq!(AccountRelation::parse("  direct\t"), Ok(AccountRelation::Direct));
    assert_eq!(AccountRelation::parse("\u{2003}Reseller\u{a0}"), Ok(AccountRelation::Reseller));
}

#[test]
fn relation_rejects_everything_else() {
    assert_eq!(
        AccountRelation::parse(" Directly "),
        ads_txt_error("Invalid account relation:  Directly ")
    );
    assert_eq!(AccountRelation::parse(""), ads_txt_error("Invalid account relation: "));
    assert_eq!(AccountRelation::parse("dir"), ads_txt_error("Invalid account relation: dir"));
    assert_eq!(
        AccountRelation::parse("di rect"),
        ads_txt_error("Invalid account relation: di rect")
    );
    assert_eq!(
        AccountRelation::parse("d\u{130}rect"),
        ads_txt_error("Invalid account relation: d\u{130}rect")
    );
}

#[test]
fn record_with_three_fields_has_no_cert_authority() {
    let record = DataRecord::parse(" a.com ,\t77 , reseller ").unwrap();
    assert_eq!(record.domain, "a.com");
    assert_eq!(record.publisher_id, "77");
    assert_eq!(record.acc_relation, AccountRelation::Reseller);
    assert_eq!(record.cert_authority, None);
}

#[test]
fn record_with_four_fields_has_trimmed_cert_authority() {
    let record = DataRecord::parse("a.com,77,direct,  tag id  ").unwrap();
    assert_eq!(record.cert_authority, Some("tag id".to_string()));
}

#[test]
fn record_accepts_empty_tokens() {
    let record = DataRecord::parse(",,direct").unwrap();
    assert_eq!(record.domain, "");
    assert_eq!(record.publisher_id, "");
}

#[test]
fn record_rejects_other_field_counts() {
    assert_eq!(DataRecord::parse("a"), ads_txt_error("Invalid data record: a"));
    assert_eq!(DataRecord::parse("a, b"), ads_txt_error("Invalid data record: a, b"));
    assert_eq!(
        DataRecord::parse("a,b,direct,d,e"),
        ads_txt_error("Invalid data record: a,b,direct,d,e")
    );
}

#[test]
fn record_passes_on_the_relation_error() {
    assert_eq!(
        DataRecord::parse("a.com, 1, owner"),
        ads_txt_error("Invalid account relation:  owner")
    );
    assert_eq!(
        DataRecord::parse("a.com, 1, owner, x"),
        ads_txt_error("Invalid account relation:  owner")
    );
}

#[test]
fn record_constructor_trims_domain_and_publisher() {
    let record = DataRecord::new("  a.com ", " 5\n", AccountRelation::Direct, None);
    assert_eq!(record.domain, "a.com");
    assert_eq!(record.publisher_id, "5");
}

#[test]
fn variable_is_trimmed() {
    assert_eq!(
        Variable::parse("  contact =  someone@example.com \t"),
        Ok(Variable::new("contact", "someone@example.com"))
    );
}

#[test]
fn variable_rejects_a_second_equals_sign() {
    assert_eq!(
        Variable::parse("contact=a=b"),
        ads_txt_error("Invalid variable record: contact=a=b")
    );
    assert_eq!(
        Variable::parse("no assignment"),
        ads_txt_error("Invalid variable record: no assignment")
    );
}

#[test]
fn variable_constructor_keeps_its_arguments() {
    let variable = Variable::new(" n ", " v ");
    assert_eq!(variable.name, " n ");
    assert_eq!(variable.value, " v ");
}

#[test]
fn comments_and_blanks_leave_the_document_unchanged() {
    let plain = "a.com, 1, direct\ncontact=x";
    let noisy = "\n# first\na.com, 1, direct\n   \n\t# second, with = and , inside\ncontact=x\n\n";
    assert_eq!(AdsTxt::parse(noisy), AdsTxt::parse(plain));
    assert_eq!(AdsTxt::parse_lenient(noisy), AdsTxt::parse_lenient(plain));
    assert_eq!(AdsTxt::parse_lenient("#\n   \n\n#x"), (AdsTxt::empty(), vec![]));
}

#[test]
fn record_wins_over_variable() {
    let (doc, errors) = AdsTxt::parse_lenient("a=b, 1, direct");
    assert!(errors.is_empty());
    assert_eq!(doc.variables, vec![]);
    assert_eq!(
        doc.records,
        vec![DataRecord::new("a=b", "1", AccountRelation::Direct, None)]
    );
}

#[test]
fn strict_and_lenient_agree() {
    let good = "a.com, 1, direct\nsubdomain=s.example.com\n# done";
    let (doc, errors) = AdsTxt::parse_lenient(good);
    assert!(errors.is_empty());
    assert_eq!(AdsTxt::parse(good), Ok(doc));

    let bad = "a.com, 1, direct\nfirst bad line\nx=y\nsecond, bad";
    let (doc, errors) = AdsTxt::parse_lenient(bad);
    assert_eq!(
        errors,
        vec![
            AdsTxtError::new("Invalid ads.txt line: first bad line"),
            AdsTxtError::new("Invalid ads.txt line: second, bad"),
        ]
    );
    assert_eq!(doc.records.len(), 1);
    assert_eq!(doc.variables, vec![Variable::new("x", "y")]);
    assert_eq!(AdsTxt::parse(bad), Err(Box::new(errors[0].clone())));
}

#[test]
fn invalid_line_is_quoted_without_leading_whitespace() {
    assert_eq!(
        AdsTxt::parse("   a, b  "),
        ads_txt_error("Invalid ads.txt line: a, b  ")
    );
}

#[test]
fn carriage_returns_end_lines_only_before_a_line_feed() {
    let (doc, errors) = AdsTxt::parse_lenient("a.com, 1, direct\r\nbad\r\nworse\r");
    assert_eq!(doc.records, vec![DataRecord::new("a.com", "1", AccountRelation::Direct, None)]);
    assert_eq!(
        errors,
        vec![
            AdsTxtError::new("Invalid ads.txt line: bad"),
            AdsTxtError::new("Invalid ads.txt line: worse\r"),
        ]
    );
}

#[test]
fn example_with_two_records_and_a_subdomain() {
    let text = "greenadexchange.com, 12345, DIRECT, d75815a79\nblueadexchange.com, XF436, DIRECT\nsubdomain=divisionone.example.com";
    let doc = AdsTxt::parse(text).unwrap();
    assert_eq!(doc.records.len(), 2);
    assert_eq!(doc.records[0].cert_authority, Some("d75815a79".to_string()));
    assert_eq!(doc.records[1].cert_authority, None);
    assert_eq!(doc.variables.len(), 1);
    assert_eq!(doc.sub_domains(), vec!["divisionone.example.com"]);
}

#[test]
fn example_with_a_short_first_line() {
    let text = "silverssp.com, 5569\norangeexchange.com, AB345, RESELLER";
    assert_eq!(
        AdsTxt::parse(text),
        ads_txt_error("Invalid ads.txt line: silverssp.com, 5569")
    );
    let (doc, errors) = AdsTxt::parse_lenient(text);
    assert_eq!(
        doc,
        AdsTxt::new(
            &[DataRecord::new("orangeexchange.com", "AB345", AccountRelation::Reseller, None)],
            &[]
        )
    );
    assert_eq!(errors, vec![AdsTxtError::new("Invalid ads.txt line: silverssp.com, 5569")]);
}

#[test]
fn example_with_empty_input() {
    assert_eq!(AdsTxt::parse(""), Ok(AdsTxt::empty()));
    assert_eq!(AdsTxt::parse_lenient(""), (AdsTxt::empty(), vec![]));
}

#[test]
fn values_is_case_sensitive_and_the_named_queries_are_not() {
    let doc = AdsTxt::parse("subdomain=a\nSubdomain=b\nSUBDOMAIN=c\nsubdomains=d\nCONTACT=e\ncontact=f").unwrap();
    assert_eq!(doc.values("subdomain"), vec!["a"]);
    assert_eq!(doc.values("Subdomain"), vec!["b"]);
    assert_eq!(doc.values("subDomain"), Vec::<String>::new());
    assert_eq!(doc.sub_domains(), vec!["a", "b", "c"]);
    assert_eq!(doc.contacts(), vec!["e", "f"]);

    let lower = AdsTxt::parse("subdomain=a\nx=y\nsubdomain=b").unwrap();
    assert_eq!(lower.values("subdomain"), lower.sub_domains());
    assert_eq!(lower.values("Subdomain"), Vec::<String>::new());
    assert_eq!(lower.contacts(), Vec::<String>::new());
}

#[test]
fn repeated_variables_are_all_kept_in_order() {
    let doc = AdsTxt::parse("contact=b\ncontact=a\ncontact=b").unwrap();
    assert_eq!(doc.values("contact"), vec!["b", "a", "b"]);
}

#[test]
fn new_copies_what_it_is_given() {
    let records = [DataRecord::new("a", "b", AccountRelation::Direct, Some("c".to_string()))];
    let variables = [Variable::new("n", "v"), Variable::new("m", "w")];
    let doc = AdsTxt::new(&records, &variables);
    assert_eq!(doc.records, records.to_vec());
    assert_eq!(doc.variables, variables.to_vec());
}

#[test]
fn error_message_and_kind() {
    let error = AdsTxtError::new("anything at all");
    assert_eq!(error.message(), "anything at all");
    let line = chars_of("x y");
    assert_eq!(
        AdsTxtError::of_kind(ErrorKind::InvalidLine, &line).message(),
        "Invalid ads.txt line: x y"
    );
    assert_eq!(
        AdsTxtError::of_kind(ErrorKind::InvalidDataRecord, &line).message(),
        "Invalid data record: x y"
    );
    assert_eq!(
        AdsTxtError::of_kind(ErrorKind::InvalidVariable, &line).message(),
        "Invalid variable record: x y"
    );
    assert_eq!(
        AdsTxtError::of_kind(ErrorKind::InvalidAccountRelation, &line).message(),
        "Invalid account relation: x y"
    );
    assert_eq!(ErrorKind::InvalidLine.prefix(), "Invalid ads.txt line: ");
}

#[test]
fn classifying_single_lines() {
    assert_eq!(adstxt::document::classify_line(&chars_of("  # note")), Line::Skipped);
    assert_eq!(adstxt::document::classify_line(&chars_of(" \t ")), Line::Skipped);
    assert_eq!(
        adstxt::document::classify_line(&chars_of(" a,b,direct")),
        Line::Record(DataRecord::new("a", "b", AccountRelation::Direct, None))
    );
    assert_eq!(
        adstxt::document::classify_line(&chars_of("a = b")),
        Line::Variable(Variable::new("a", "b"))
    );
    assert_eq!(
        adstxt::document::classify_line(&chars_of(" a b")),
        Line::Invalid(AdsTxtError::new("Invalid ads.txt line: a b"))
    );
    assert!(AdsTxt::is_comment(&chars_of("#")));
    assert!(!AdsTxt::is_comment(&chars_of(" #")));
    assert!(!AdsTxt::is_comment(&chars_of("")));
}

#[test]
fn splitting_matches_the_standard_library() {
    for text in ["", ",", "a", "a,b", ",a,,b,", "a, b, c,d", ",,,"] {
        let expected: Vec<String> = text.split(',').map(str::to_string).collect();
        assert_eq!(strings(split(&chars_of(text), ',')), expected);
    }
}

#[test]
fn lines_match_the_standard_library() {
    for text in ["", "\n", "a", "a\n", "a\nb", "a\r\nb\r", "\r\n\r\n", "a\n\nb\n\n", "\r", "a\r\r\n"] {
        let expected: Vec<String> = text.lines().map(str::to_string).collect();
        assert_eq!(strings(lines(&chars_of(text))), expected);
    }
}

#[test]
fn trimming_matches_the_standard_library() {
    for text in ["", " ", "a", "  a b \t", "\u{3000}x\u{2028}", "\u{85}\u{1680}y\u{205f}\u{202f}", "\u{200b}z ", "\u{b}\u{c}q\r\n"] {
        assert_eq!(string_of(trim(&chars_of(text))), text.trim());
        assert_eq!(string_of(trim_start(&chars_of(text))), text.trim_start());
        assert_eq!(string_of(trim_end(&chars_of(text))), text.trim_end());
    }
}

#[test]
fn whitespace_matches_the_standard_library() {
    for code in 0u32..0x11_0000 {
        if let Some(c) = char::from_u32(code) {
            assert_eq!(adstxt::text::char_is_space(c), c.is_whitespace());
            assert_eq!(adstxt::text::char_ascii_lower(c), c.to_ascii_lowercase());
        }
    }
}

#[test]
fn relation_matches_unicode_lowercasing() {
    for code in 0u32..0x11_0000 {
        if let Some(c) = char::from_u32(code) {
            for word in ["direct", "reseller"] {
                let token: String = word.replacen('e', &c.to_string(), 1);
                let expected = token.trim().to_lowercase() == word;
                assert_eq!(AccountRelation::parse(&token).is_ok(), expected);
            }
        }
    }
}

#[test]
fn only_ascii_letters_lowercase_to_the_letters_of_a_relation() {
    for code in 0x80u32..0x11_0000 {
        if let Some(c) = char::from_u32(code) {
            let lowered: String = c.to_string().to_lowercase();
            assert!(lowered.chars().any(|l| !"directsl".contains(l)));
        }
    }
}

#[test]
fn kind_and_offending_text_come_back_from_the_message() {
    let error = *AdsTxt::parse("a, b").unwrap_err();
    assert_eq!(error.kind(), Some(ErrorKind::InvalidLine));
    assert_eq!(error.offending_text(), Some("a, b".to_string()));

    let error = *DataRecord::parse("a, b").unwrap_err();
    assert_eq!(error.kind(), Some(ErrorKind::InvalidDataRecord));
    assert_eq!(error.offending_text(), Some("a, b".to_string()));

    let error = *DataRecord::parse("a, b, c").unwrap_err();
    assert_eq!(error.kind(), Some(ErrorKind::InvalidAccountRelation));
    assert_eq!(error.offending_text(), Some(" c".to_string()));

    let error = *Variable::parse("a").unwrap_err();
    assert_eq!(error.kind(), Some(ErrorKind::InvalidVariable));
    assert_eq!(error.offending_text(), Some("a".to_string()));

    let error = AdsTxtError::new("Invalid data record:");
    assert_eq!(error.kind(), None);
    assert_eq!(error.offending_text(), None);
    assert_eq!(AdsTxtError::new("").kind(), None);
}

#[test]
fn joining_the_fields_gives_the_text_back() {
    for text in ["", "=", "a=b", "==a=", "name = value"] {
        let chars = chars_of(text);
        let fields = strings(split(&chars, '='));
        assert!(fields.iter().all(|f| !f.contains('=')));
        assert_eq!(fields.join("="), text);
    }
}

#[test]
fn prefixes_and_exact_comparison() {
    let text = chars_of("Invalid line");
    assert_eq!(strip_prefix(&text, "Invalid ").map(|r| string_of(r)), Some("line".to_string()));
    assert_eq!(strip_prefix(&text, "").map(|r| string_of(r)), Some("Invalid line".to_string()));
    assert_eq!(strip_prefix(&text, "invalid"), None);
    assert_eq!(strip_prefix(&text, "Invalid line and more"), None);
    assert!(eq_chars(&text, &chars_of("Invalid line")));
    assert!(!eq_chars(&text, &chars_of("invalid line")));
    assert!(!eq_chars(&text, &chars_of("Invalid lin")));
    assert!(matches_ignoring_ascii_case(&chars_of("DiReCt"), "direct"));
    assert!(!matches_ignoring_ascii_case(&chars_of("direc"), "direct"));
    assert!(!matches_ignoring_ascii_case(&chars_of("directt"), "direct"));
}

#[test]
fn comparing_up_to_ascii_case() {
    assert!(eq_ignore_ascii_case(&chars_of("SubDomain"), &chars_of("subdomain")));
    assert!(!eq_ignore_ascii_case(&chars_of("subdomain"), &chars_of("subdomains")));
    assert!(!eq_ignore_ascii_case(&chars_of("\u{212a}"), &chars_of("k")));
    assert!(eq_ignore_ascii_case(&chars_of(""), &chars_of("")));
}
