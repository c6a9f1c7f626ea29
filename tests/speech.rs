use firefight::speech::{Synthesizable, SLOW_SPEECH, SPEECH_END, S_SOUND, X_SLOW_SPEECH};

fn s(text: &str) -> String {
    text.to_string()
}

#[test]
fn pattern_speech() {
    let text = Synthesizable::Pattern(s("Veículo")).to_speech();
    assert_eq!(
        text,
        "<speak><prosody rate=\"medium\"><amazon:effect name=\"drc\">Veículo</amazon:effect></prosody></speak>"
    );
}

#[test]
fn occurrence_speech() {
    let text = Synthesizable::Occurrence(s("Incêndio urbano")).to_speech();
    assert_eq!(
        text,
        format!(
            "{}Saída <phoneme alphabet=\"ipa\" ph=\"pɐ.ɾɐ\">para</phoneme> <break strength=\"weak\" /> Incêndio urbano{}",
            SLOW_SPEECH, SPEECH_END
        )
    );
}

#[test]
fn staff_speech_drops_leading_zeros() {
    assert_eq!(Synthesizable::Staff(s("007")).to_speech(), format!("{}7{}", SLOW_SPEECH, SPEECH_END));
    assert_eq!(Synthesizable::Staff(s("000")).to_speech(), format!("{}{}", SLOW_SPEECH, SPEECH_END));
    assert_eq!(Synthesizable::Staff(s("10")).to_speech(), format!("{}10{}", SLOW_SPEECH, SPEECH_END));
}

#[test]
fn vehicle_speech_spells_upper_case_with_s_sound() {
    let text = Synthesizable::Vehicle(s("vs1")).to_speech();
    assert_eq!(
        text,
        format!(
            "{}<say-as interpret-as=\"spell-out\">V{}1</say-as>{}",
            X_SLOW_SPEECH, S_SOUND, SPEECH_END
        )
    );
    let plain = Synthesizable::Vehicle(s("abc")).to_speech();
    assert_eq!(plain, format!("{}<say-as interpret-as=\"spell-out\">ABC</say-as>{}", X_SLOW_SPEECH, SPEECH_END));
}

#[test]
fn raw_speech_is_unchanged() {
    assert_eq!(Synthesizable::Raw(s("<speak>hi</speak>")).to_speech(), "<speak>hi</speak>");
}
