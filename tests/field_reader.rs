use nmea_gps::field_reader::{FieldReader, ReadResult, Real};

#[test]
/// Given an empty string guarantee that we receive a ReadResult::Empty
pub fn empty_str() {
    let mut reader = FieldReader::new(String::from(""), ',');
    let ret = reader.read::<i32>();

    assert!(ret.is_err());
    assert!(matches!(ret.err().unwrap(), ReadResult::Empty));
}

#[test]
/// Try to read a i32 value from something that can't be parsed as one
pub fn invalid_format() {
    let mut reader = FieldReader::new(String::from("#"), ',');
    let ret = reader.read::<i32>();

    assert!(ret.is_err());
    assert!(matches!(ret.err().unwrap(), ReadResult::InvalidFormat));
}

#[test]
/// Parse a value from a string with no separator, then reach the end
pub fn single_argument() {
    let mut reader = FieldReader::new(String::from("10"), ',');
    let mut ret = reader.read::<i32>();

    assert!(ret.is_ok());
    assert_eq!(ret.unwrap(), 10);

    ret = reader.read::<i32>();
    assert!(ret.is_err());
    assert!(matches!(ret.err().unwrap(), ReadResult::Empty));
}

#[test]
/// Parse multiple values until end of string
pub fn to_completion() {
    let mut reader = FieldReader::new(String::from("10,2,1001,50"), ',');
    let mut ret = reader.read::<i32>();

    assert!(ret.is_ok());
    assert_eq!(ret.unwrap(), 10);

    ret = reader.read::<i32>();
    assert!(ret.is_ok());
    assert_eq!(ret.unwrap(), 2);

    ret = reader.read::<i32>();
    assert!(ret.is_ok());
    assert_eq!(ret.unwrap(), 1001);

    ret = reader.read::<i32>();
    assert!(ret.is_ok());
    assert_eq!(ret.unwrap(), 50);
}

fn as_f64(r: Real) -> f64 {
    r.as_str().parse::<f64>().unwrap()
}

fn as_f32(r: Real) -> f32 {
    r.as_str().parse::<f32>().unwrap()
}

#[test]
/// Parse multiple real values among other types
pub fn with_floating_point_f64() {
    let mut reader = FieldReader::new(String::from("10.2,2,1001.999,50"), ',');
    let ret = reader.read::<Real>();

    assert!(ret.is_ok());
    assert_eq!(as_f64(ret.unwrap()), 10.2);

    let ret2 = reader.read::<i32>();
    assert!(ret2.is_ok());
    assert_eq!(ret2.unwrap(), 2);

    let ret3 = reader.read::<Real>();
    assert!(ret3.is_ok());
    assert_eq!(as_f64(ret3.unwrap()), 1001.999);

    let ret4 = reader.read::<i32>();
    assert!(ret4.is_ok());
    assert_eq!(ret4.unwrap(), 50);
}

#[test]
/// Parse multiple real values, taken as f32, among other types
pub fn with_floating_point_f32() {
    let mut reader = FieldReader::new(String::from("10.2,2,1001.999,50"), ',');
    let ret = reader.read::<Real>();

    assert!(ret.is_ok());
    assert_eq!(as_f32(ret.unwrap()), 10.2);

    let ret2 = reader.read::<i32>();
    assert!(ret2.is_ok());
    assert_eq!(ret2.unwrap(), 2);

    let ret3 = reader.read::<Real>();
    assert!(ret3.is_ok());
    assert_eq!(as_f32(ret3.unwrap()), 1001.999);

    let ret4 = reader.read::<i32>();
    assert!(ret4.is_ok());
    assert_eq!(ret4.unwrap(), 50);
}

#[test]
/// Parse multiple value types such as string, real and integer
pub fn mixed() {
    let mut reader = FieldReader::new(String::from("10.2,2,ABCD,0.22,#aa"), ',');

    let ret = reader.read::<Real>();
    assert!(ret.is_ok());
    assert_eq!(as_f64(ret.unwrap()), 10.2);

    let ret2 = reader.read::<i32>();
    assert!(ret2.is_ok());
    assert_eq!(ret2.unwrap(), 2);

    let ret3 = reader.read::<String>();
    assert!(ret3.is_ok());
    assert_eq!(ret3.unwrap(), "ABCD");

    let ret4 = reader.read::<Real>();
    assert!(ret4.is_ok());
    assert_eq!(as_f64(ret4.unwrap()), 0.22);

    let ret5 = reader.read::<String>();
    assert!(ret5.is_ok());
    assert_eq!(ret5.unwrap(), "#aa");
}

#[test]
/// Parse an integer into a real
pub fn integer_as_floating() {
    let mut reader = FieldReader::new(String::from("10"), ',');

    let ret = reader.read::<Real>();
    assert!(ret.is_ok());
    assert_eq!(as_f64(ret.unwrap()), 10.0);
}

#[test]
/// Parse a real as integer and expect ReadResult::InvalidFormat
pub fn floating_as_integer() {
    let mut reader = FieldReader::new(String::from("12.02"), ',');

    let ret = reader.read::<i32>();
    assert!(ret.is_err());
    assert!(matches!(ret.err().unwrap(), ReadResult::InvalidFormat));
}

#[test]
/// Skip a value; the others are read in order
pub fn skip() {
    let mut reader = FieldReader::new(String::from("10,2,1001,50"), ',');
    let mut ret = reader.read::<i32>();

    assert!(ret.is_ok());
    assert_eq!(ret.unwrap(), 10);

    assert!(reader.skip());

    ret = reader.read::<i32>();
    assert!(ret.is_ok());
    assert_eq!(ret.unwrap(), 1001);

    ret = reader.read::<i32>();
    assert!(ret.is_ok());
    assert_eq!(ret.unwrap(), 50);
}

#[test]
/// Skip all fields: true on all calls until no more fields to skip
pub fn skip_all() {
    let mut reader = FieldReader::new(String::from("10,2,1001,50"), ',');

    assert!(reader.skip());
    assert!(reader.skip());
    assert!(reader.skip());
    assert!(reader.skip());

    // nothing more to skip
    assert!(!reader.skip());
}

#[test]
fn optional_empty_field_is_absent() {
    let mut reader = FieldReader::new(String::from("10,,5"), ',');
    assert_eq!(reader.read_optional::<i32>().unwrap(), Some(10));
    assert!(matches!(reader.read_optional::<Real>(), Ok(None)));
    assert_eq!(reader.read_optional::<i32>().unwrap(), Some(5));
    assert!(matches!(reader.read_optional::<Real>(), Ok(None)));
}

#[test]
fn optional_invalid_field_is_an_error() {
    let mut reader = FieldReader::new(String::from("abc"), ',');
    assert!(matches!(reader.read_optional::<Real>(), Err(ReadResult::InvalidFormat)));
}

#[test]
fn mandatory_empty_field_is_empty() {
    let mut reader = FieldReader::new(String::from(",7"), ',');
    assert!(matches!(reader.read::<u8>(), Err(ReadResult::Empty)));
    assert_eq!(reader.read::<u8>().unwrap(), 7);
}

#[test]
fn trailing_separator_opens_no_field() {
    let mut reader = FieldReader::new(String::from("a,"), ',');
    assert!(reader.skip());
    assert!(!reader.skip());
    let mut reader2 = FieldReader::new(String::from(","), ',');
    assert!(reader2.skip());
    assert!(!reader2.skip());
}

#[test]
fn other_separator() {
    let mut reader = FieldReader::new(String::from("3;4"), ';');
    assert_eq!(reader.read::<u16>().unwrap(), 3);
    assert_eq!(reader.read::<u16>().unwrap(), 4);
}

#[test]
fn integer_ranges_and_signs() {
    let mut reader = FieldReader::new(
        String::from("255,256,+7,-7,-2147483648,2147483648,65535,65536,-0"),
        ',',
    );
    assert_eq!(reader.read::<u8>().unwrap(), 255);
    assert!(matches!(reader.read::<u8>(), Err(ReadResult::InvalidFormat)));
    assert_eq!(reader.read::<u8>().unwrap(), 7);
    assert!(matches!(reader.read::<u8>(), Err(ReadResult::InvalidFormat)));
    assert_eq!(reader.read::<i32>().unwrap(), -2147483648);
    assert!(matches!(reader.read::<i32>(), Err(ReadResult::InvalidFormat)));
    assert_eq!(reader.read::<u16>().unwrap(), 65535);
    assert!(matches!(reader.read::<u16>(), Err(ReadResult::InvalidFormat)));
    assert_eq!(reader.read::<i32>().unwrap(), 0);
}

#[test]
fn real_forms() {
    let accepted = ["1e5", "-2.5E-3", ".5", "5.", "+inf", "NaN", "Infinity", "007"];
    for t in accepted {
        let mut reader = FieldReader::new(String::from(t), ',');
        let r = reader.read::<Real>().unwrap();
        assert_eq!(r.as_str(), t);
        assert!(t.parse::<f64>().is_ok());
    }
    let refused = [".", "1.2.3", "e5", "1e", "1e+", "+", "in", "N", "--1", "1 "];
    for t in refused {
        let mut reader = FieldReader::new(String::from(t), ',');
        assert!(matches!(reader.read::<Real>(), Err(ReadResult::InvalidFormat)));
        assert!(t.parse::<f64>().is_err());
    }
}

#[test]
fn read_result_descriptions() {
    assert_eq!(ReadResult::Empty.describe(), "Empty");
    assert_eq!(ReadResult::InvalidFormat.describe(), "Invalid format");
    assert_eq!(ReadResult::InternalError.describe(), "Internal parsing error");
}
