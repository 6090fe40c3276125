use sotto::base32_codec;
use sotto::base32_codec::{codec_trial, structured_ascii, CodecTrial};
use sotto::key_strings;
use sotto::key_strings::{body_text, key_trial, wrong_version, KeyTrial};

#[test]
fn inputs_are_bounded() {
    let long = vec![7u8; 20000];
    assert_eq!(base32_codec::bounded(&long).len(), 16384);
    assert_eq!(key_strings::bounded(&long).len(), 16384);
    assert_eq!(base32_codec::bounded(&[1, 2, 3]), [1, 2, 3]);
    assert!(key_strings::bounded(&[]).is_empty());
}

#[test]
fn every_byte_has_a_symbol() {
    let all: Vec<u8> = (0..40).collect();
    let symbols = "0123456789ABCDEFGHJKMNPQRSTVWXYZ-oilU###";
    assert_eq!(structured_ascii(&all), symbols);
    assert_eq!(body_text(&all), symbols);
    assert_eq!(structured_ascii(&[40, 72, 240]), "0-0");
}

#[test]
fn codec_trials_follow_the_first_byte() {
    assert_eq!(codec_trial(&[]), CodecTrial::Decode(String::new()));
    assert_eq!(codec_trial(&[3, 9, 8]), CodecTrial::RoundTrip(vec![9, 8]));
    assert_eq!(codec_trial(&[1, b'h', b'i']), CodecTrial::Decode("hi".into()));
    assert_eq!(codec_trial(&[4, 0xff]), CodecTrial::Nothing);
    assert_eq!(codec_trial(&[2, 10, 32]), CodecTrial::Refuse("A-#".into()));
}

#[test]
fn key_trials_follow_the_first_byte() {
    assert_eq!(key_trial(&[]), KeyTrial::Decode(String::new()));
    assert_eq!(key_trial(&[4, 9]), KeyTrial::RoundTrip(vec![9]));
    assert_eq!(key_trial(&[1, 10, 11]), KeyTrial::Refuse("AB".into()));
    assert_eq!(key_trial(&[2, 10]), KeyTrial::Refuse("SK1-A#".into()));
    for (payload, prefix) in [(vec![], "SK"), (vec![3], "SK"), (vec![4], "RK"), (vec![5], "MT")] {
        let mut data = vec![3u8];
        data.extend_from_slice(&payload);
        assert_eq!(
            key_trial(&data),
            KeyTrial::WrongVersion { prefix: prefix.into(), payload: payload.clone() }
        );
    }
}

#[test]
fn wrong_versions_keep_the_body() {
    assert_eq!(wrong_version("RK", "RK1-ABC-D"), "RK2-ABC-D");
    assert_eq!(wrong_version("SK", "no hyphen"), "SK2-");
    assert_eq!(wrong_version("MT", ""), "MT2-");
}
