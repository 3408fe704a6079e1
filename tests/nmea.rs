use nmea_gps::nmea::{xor, Field, Parser, Sentence, State};
use nmea_gps::values::parse_checksum;

const GGA: &str =
    "$GPGGA,202530.00,5109.0262,N,11401.8407,W,5,40,0.5,1097.36,M,-17.00,M,18,TSTR*61";
const VTG: &str = "$GPVTG,054.7,T,034.4,M,005.5,N,010.2,K,A*25";
const RMC: &str = "$GPRMC,123519,A,4807.038,N,01131.000,E,022.4,084.4,230394,003.1,W*6A";
const ZDA: &str = "$GPZDA,201530.00,04,07,2002,00,00*60";

/// Pushes every character of `s`, checking that all but the last are on-going.
fn push_all(parser: &mut Parser, s: &str) -> Result<Sentence, State> {
    let chars: Vec<char> = s.chars().collect();
    let (last, body) = chars.split_last().unwrap();
    for c in body {
        assert_eq!(parser.push(*c), Err(State::OnGoing), "at {:?} of {}", c, s);
    }
    parser.push(*last)
}

#[test]
fn initial_state() {
    let parser = Parser::new();

    assert_eq!(parser.field, Field::Sync);
    assert_eq!(parser.sntc, Sentence::Invalid);
    assert!(parser.bfr.is_empty());
    assert_eq!(parser.read_checksum, 0);
    assert_eq!(parser.checksum, 0);
}

#[test]
fn reset_state() {
    let mut parser = Parser {
        field: Field::Checksum,
        sntc: Sentence::from(&String::from("GGA")),
        bfr: "42".to_string(),
        checksum: 2,
        read_checksum: 5,
    };

    assert_ne!(parser.field, Field::Sync);
    assert_ne!(parser.sntc, Sentence::Invalid);
    assert!(!parser.bfr.is_empty());
    assert_ne!(parser.read_checksum, 0);
    assert_ne!(parser.checksum, 0);

    parser.reset();

    assert_eq!(parser.field, Field::Sync);
    assert_eq!(parser.sntc, Sentence::Invalid);
    assert!(parser.bfr.is_empty());
    assert_eq!(parser.read_checksum, 0);
    assert_eq!(parser.checksum, 0);
}

#[test]
fn invalid_sync() {
    let sentence = "#GGA,dasda,dasdsad,*321";
    let mut parser = Parser::new();

    let ret = parser.push(sentence.chars().nth(0).unwrap());
    assert!(ret.is_err());
    assert!(matches!(ret.err().unwrap(), State::InvalidSync(_)));
}

#[test]
fn invalid_sentence_id() {
    let sentence = "$X,dasda,dasdsad*321";
    let mut parser = Parser::new();

    let mut ret = parser.push(sentence.chars().nth(0).unwrap());
    assert!(ret.is_err());
    assert!(matches!(ret.err().unwrap(), State::OnGoing));

    ret = parser.push(sentence.chars().nth(1).unwrap());
    assert!(ret.is_err());
    assert!(matches!(ret.err().unwrap(), State::OnGoing));

    ret = parser.push(sentence.chars().nth(2).unwrap());
    assert!(ret.is_err());
    assert!(matches!(ret.err().unwrap(), State::InvalidId(_)));
}

#[test]
fn valid_sentence_id() {
    let sentence = "$GPGGA,dasda,dasdsad*321";
    let mut parser = Parser::new();

    let mut ret = parser.push(sentence.chars().nth(0).unwrap());
    assert!(ret.is_err());
    assert!(matches!(ret.err().unwrap(), State::OnGoing));

    for i in 1..7 {
        ret = parser.push(sentence.chars().nth(i).unwrap());
        assert!(ret.is_err());
        assert!(matches!(ret.err().unwrap(), State::OnGoing));
    }

    assert!(matches!(parser.sntc, Sentence::GGA(_)));
}

#[test]
fn full_valid_parse() {
    let sentence = GGA;
    let mut parser = Parser::new();

    let mut ret: Result<Sentence, State> = Err(State::OnGoing);
    for c in sentence.chars() {
        ret = parser.push(c);
    }

    // check parser reset state properly
    assert!(matches!(parser.field, Field::Sync));
    assert!(ret.is_ok());
    // proper checksum
    assert_eq!(parser.read_checksum, 97);
}

#[test]
fn gga_decoded_fields() {
    let mut parser = Parser::new();
    let ret = push_all(&mut parser, GGA);
    match ret {
        Ok(Sentence::GGA(m)) => {
            assert_eq!(m.utc_time.unwrap().as_str(), "202530.00");
            assert_eq!(m.lat.unwrap().as_str(), "5109.0262");
            assert_eq!(m.ns.unwrap(), "N");
            assert_eq!(m.lon.unwrap().as_str(), "11401.8407");
            assert_eq!(m.ew.unwrap(), "W");
            assert_eq!(m.validity, 5);
            assert_eq!(m.sat, Some(40));
            assert_eq!(m.hdop.unwrap().as_str(), "0.5");
            assert_eq!(m.alt.unwrap().as_str(), "1097.36");
            assert_eq!(m.units.unwrap(), "M");
            assert!(m.gsep.is_none());
            assert!(m.gsep_units.is_none());
            assert!(m.dgps_age.is_none());
            assert!(m.dgps_id.is_none());
        }
        other => panic!("unexpected {:?}", other),
    }
}

#[test]
fn gga_with_empty_optional_fields() {
    let mut parser = Parser::new();
    match push_all(&mut parser, "$GPGGA,,,,,,1,,,,*67") {
        Ok(Sentence::GGA(m)) => {
            assert_eq!(m.validity, 1);
            assert!(m.utc_time.is_none() && m.lat.is_none() && m.ns.is_none());
            assert!(m.lon.is_none() && m.ew.is_none() && m.sat.is_none());
            assert!(m.hdop.is_none() && m.alt.is_none() && m.units.is_none());
        }
        other => panic!("unexpected {:?}", other),
    }
}

#[test]
fn vtg_decoded_fields() {
    let mut parser = Parser::new();
    match push_all(&mut parser, VTG) {
        Ok(Sentence::VTG(m)) => {
            assert_eq!(m.cog_true.unwrap().as_str(), "054.7");
            assert_eq!(m.cog_magnetic.unwrap().as_str(), "034.4");
            assert_eq!(m.sog_knots.unwrap().as_str(), "005.5");
            assert_eq!(m.sog_kph.unwrap().as_str(), "010.2");
            assert_eq!(m.mode.unwrap(), "A");
        }
        other => panic!("unexpected {:?}", other),
    }
}

#[test]
fn vtg_missing_unit_marker_fails() {
    // "054.7,T,034.4" lacks the magnetic-course marker; checksum is irrelevant
    let mut parser = Parser::new();
    let mut ret = Err(State::OnGoing);
    for c in "$GPVTG,054.7,T,034.4*00".chars() {
        ret = parser.push(c);
        if ret != Err(State::OnGoing) {
            break;
        }
    }
    assert_eq!(ret, Err(State::InvalidFields));
    assert_eq!(parser.field, Field::Sync);
}

#[test]
fn rmc_and_zda_complete() {
    let mut parser = Parser::new();
    assert!(matches!(push_all(&mut parser, RMC), Ok(Sentence::RMC(_))));
    match push_all(&mut parser, ZDA) {
        Ok(Sentence::ZDA(m)) => {
            assert!(m.utc.is_none() && m.day.is_none() && m.month.is_none() && m.year.is_none())
        }
        other => panic!("unexpected {:?}", other),
    }
}

#[test]
fn gga_checksum_value() {
    let body = "GPGGA,202530.00,5109.0262,N,11401.8407,W,5,40,0.5,1097.36,M,-17.00,M,18,TSTR";
    let mut cs = 0;
    for c in body.chars() {
        cs = xor(cs, c);
    }
    assert_eq!(cs, 0x61);
    assert_eq!(cs, 97);
    assert_eq!(parse_checksum("61"), Some(97));
}

#[test]
fn invalid_sync_then_fresh_parse() {
    let mut parser = Parser::new();
    assert_eq!(parser.push('x'), Err(State::InvalidSync('x')));
    assert_eq!(parser.field, Field::Sync);
    assert!(matches!(push_all(&mut parser, GGA), Ok(Sentence::GGA(_))));
}

#[test]
fn unknown_id_reported_at_comma() {
    let mut parser = Parser::new();
    for c in "$XYZ".chars() {
        assert_eq!(parser.push(c), Err(State::OnGoing));
    }
    assert_eq!(parser.push(','), Err(State::InvalidId(String::from("XYZ"))));
    assert_eq!(parser.field, Field::Sync);
}

#[test]
fn flipped_checksum_digit_mismatch() {
    let mut parser = Parser::new();
    let bad = GGA.replace("*61", "*62");
    assert_eq!(
        push_all(&mut parser, &bad),
        Err(State::ChecksumMismatch { expected: 97, received: 98 })
    );
    assert_eq!(parser.field, Field::Sync);
    assert!(parser.bfr.is_empty());
    assert!(matches!(push_all(&mut parser, GGA), Ok(Sentence::GGA(_))));
}

#[test]
fn non_hex_checksum_digits() {
    let mut parser = Parser::new();
    let bad = ZDA.replace("*60", "*6G");
    assert_eq!(push_all(&mut parser, &bad), Err(State::InvalidChecksum(String::from("6G"))));
    assert_eq!(parser.field, Field::Sync);
}

#[test]
fn gga_bad_validity_is_invalid_fields() {
    let mut parser = Parser::new();
    let s = "$GPGGA,202530.00,5109.0262,N,11401.8407,W,X,40,0.5,1097.36,M*4C";
    let mut ret = Err(State::OnGoing);
    for c in s.chars() {
        ret = parser.push(c);
        if ret != Err(State::OnGoing) {
            break;
        }
    }
    assert_eq!(ret, Err(State::InvalidFields));
    assert_eq!(parser.sntc, Sentence::Invalid);
    assert_eq!(parser.field, Field::Sync);
}

#[test]
fn sentence_classification() {
    assert!(matches!(Sentence::from(&String::from("GPGGA")), Sentence::GGA(_)));
    assert!(matches!(Sentence::from(&String::from("IIVTG")), Sentence::VTG(_)));
    assert!(matches!(Sentence::from(&String::from("RMC")), Sentence::RMC(_)));
    assert!(matches!(Sentence::from(&String::from("GPZDA")), Sentence::ZDA(_)));
    assert_eq!(Sentence::from(&String::from("GA")), Sentence::Invalid);
    assert_eq!(Sentence::from(&String::from("GGAX")), Sentence::Invalid);
    assert!(Sentence::Invalid.is_invalid());
}

#[test]
fn checksum_digits() {
    assert_eq!(parse_checksum("ff"), Some(255));
    assert_eq!(parse_checksum("0A"), Some(10));
    assert_eq!(parse_checksum("+F"), None);
    assert_eq!(parse_checksum("123"), None);
    assert_eq!(xor(0, 'A'), 65);
    assert_eq!(xor(65, 'A'), 0);
}
