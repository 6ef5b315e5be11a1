//! Decoder and encoder behaviour on whole frames.

use fixcore::codec::{Codec, Error, TransVerticalSlash};
use fixcore::message::FieldValue;

fn encoder() -> Codec {
    Codec::with_transmuter(&TransVerticalSlash)
}

#[test]
fn can_parse_simple_message() {
    let msg = "8=FIX.4.2|9=251|35=D|49=AFUNDMGR|56=ABROKERt|15=USD|59=0|10=127|";
    let codec = encoder();
    let result = codec.decode(msg.as_bytes());
    assert!(result.is_ok());
}

const RANDOM_MESSAGES: &[&str] = &[
    "8=FIX.4.2|9=42|35=0|49=A|56=B|34=12|52=20100304-07:59:30|10=185|",
    "8=FIX.4.2|9=97|35=6|49=BKR|56=IM|34=14|52=20100204-09:18:42|23=115685|28=N|55=SPMI.MI|54=2|44=2200.75|27=S|25=H|10=248|",
    "8=FIX.4.4|9=117|35=AD|34=2|49=A|50=1|52=20100219-14:33:32.258|56=B|57=M|263=1|568=1|569=0|580=1|75=20100218|60=20100218-00:00:00.000|10=202|",
    "8=FIX.4.4|9=94|35=3|34=214|49=A|50=U1|52=20100304-09:42:23.130|56=AB|128=B1|45=176|58=txt|371=15|372=X|373=1|10=058|",
    "8=FIX.4.4|9=70|35=4|49=A|56=XYZ|34=129|52=20100302-19:38:21|43=Y|57=LOL|123=Y|36=175|10=192|",
    "8=FIX.4.4|9=122|35=D|34=215|49=CLIENT12|52=20100225-19:41:57.316|56=B|1=Marcel|11=13346|21=1|40=2|44=5|54=1|59=0|60=20100225-19:39:52.020|10=072|",
    "8=FIX.4.2|9=196|35=X|49=A|56=B|34=12|52=20100318-03:21:11.364|262=A|268=2|279=0|269=0|278=BID|55=EUR/USD|270=1.37215|15=EUR|271=2500000|346=1|279=0|269=1|278=OFFER|55=EUR/USD|270=1.37224|15=EUR|271=2503200|346=1|10=171|",
    "8=FIX.4.2|9=42|35=0|49=A|56=B|34=12|52=20100304-07:59:30|10=185|",
];

#[test]
fn assortment_of_random_messages_is_ok() {
    for msg in RANDOM_MESSAGES {
        let codec = encoder();
        let result = codec.decode(msg.as_bytes());
        assert!(result.is_ok());
    }
}

#[test]
fn heartbeat_message_fields_are_ok() {
    let codec = encoder();
    let message = codec.decode(RANDOM_MESSAGES[0].as_bytes()).unwrap();
    assert_eq!(
        message.get_field(8),
        Some(&FieldValue::Str("FIX.4.2".as_bytes().to_vec()))
    );
    assert_eq!(message.get_field(9), Some(&FieldValue::Int(42)));
    assert_eq!(
        message.get_field(35),
        Some(&FieldValue::Str("0".as_bytes().to_vec()))
    );
}

#[test]
fn new_order_single_without_final_separator() {
    let msg = "8=FIX.4.4|9=122|35=D|34=215|49=CLIENT12|52=20100225-19:41:57.316|56=B|1=Marcel|11=13346|21=1|40=2|44=5|54=1|59=0|60=20100225-19:39:52.020|10=072";
    let codec = encoder();
    let result = codec.decode(msg.as_bytes());
    assert_eq!(result, Err(Error::Eof));
}

#[test]
fn message_must_end_with_separator() {
    let msg = "8=FIX.4.2|9=251|35=D|49=AFUNDMGR|56=ABROKERt|15=USD|59=0|10=127";
    let codec = encoder();
    let result = codec.decode(msg.as_bytes());
    assert_eq!(result, Err(Error::Eof));
}

#[test]
fn message_without_checksum() {
    let msg = "8=FIX.4.4|9=251|35=D|49=AFUNDMGR|56=ABROKERt|15=USD|59=0|";
    let codec = encoder();
    let result = codec.decode(msg.as_bytes());
    assert_eq!(result, Err(Error::InvalidStandardTrailer));
}

#[test]
fn message_without_standard_header() {
    let msg = "35=D|49=AFUNDMGR|56=ABROKERt|15=USD|59=0|10=000|";
    let codec = encoder();
    let result = codec.decode(msg.as_bytes());
    assert_eq!(result, Err(Error::InvalidStandardHeader));
}

#[test]
fn detect_incorrect_checksum() {
    let msg = "8=FIX.4.2|9=251|35=D|49=AFUNDMGR|56=ABROKER|15=USD|59=0|10=126|";
    let _result = encoder().decode(msg.as_bytes());
}
