use sonata_synth::audio::AudioInfo;
use sonata_synth::error::{ErrorKind, SonataError};
use sonata_synth::model::{PiperModel, PiperScales, PiperSynthesisConfig, Speaker, SynthesisConfig};

fn info() -> AudioInfo {
    AudioInfo { sample_rate: 22050, num_channels: 1, sample_width: 2 }
}

fn piper_config() -> SynthesisConfig {
    SynthesisConfig::Piper(PiperSynthesisConfig {
        speaker: None,
        length_scale: 1.0f32.to_bits(),
        noise_scale: 0.667f32.to_bits(),
        noise_w: 0.8f32.to_bits(),
    })
}

fn speakers() -> Vec<Speaker> {
    vec![
        Speaker { id: 0, name: "anna".to_string() },
        Speaker { id: 7, name: "bert".to_string() },
        Speaker { id: 3, name: "cleo".to_string() },
    ]
}

fn model() -> PiperModel {
    PiperModel::new(info(), Some("en-us".to_string()), Some(speakers()), piper_config()).unwrap()
}

#[test]
fn new_model_keeps_what_it_was_given() {
    let m = model();
    assert_eq!(m.audio_output_info(), info());
    assert_eq!(m.language(), Some("en-us".to_string()));
    assert_eq!(m.speakers(), Some(&speakers()));
    assert_eq!(m.fallback_synthesis_config(), piper_config());
}

#[test]
fn new_model_rejects_a_repeated_id() {
    let twice = vec![
        Speaker { id: 1, name: "anna".to_string() },
        Speaker { id: 1, name: "bert".to_string() },
    ];
    let r = PiperModel::new(info(), None, Some(twice), piper_config());
    assert_eq!(
        r,
        Err(SonataError::Operation("a speaker id or name occurs twice in the directory".to_string()))
    );
}

#[test]
fn new_model_rejects_a_repeated_name() {
    let twice = vec![
        Speaker { id: 1, name: "anna".to_string() },
        Speaker { id: 2, name: "anna".to_string() },
    ];
    let r = PiperModel::new(info(), None, Some(twice), piper_config());
    assert_eq!(r.unwrap_err().kind(), ErrorKind::Operation);
}

#[test]
fn lookups_go_both_ways() {
    let m = model();
    assert_eq!(m.speaker_name_to_id(&"bert".to_string()), Some(7));
    assert_eq!(m.speaker_id_to_name(7), Some("bert".to_string()));
    assert_eq!(m.speaker_name_to_id(&"dora".to_string()), None);
    assert_eq!(m.speaker_id_to_name(1), None);
}

#[test]
fn lookups_without_a_directory_find_nothing() {
    let m = PiperModel::new(info(), None, None, piper_config()).unwrap();
    assert_eq!(m.speakers(), None);
    assert_eq!(m.language(), None);
    assert_eq!(m.speaker_name_to_id(&"anna".to_string()), None);
    assert_eq!(m.speaker_id_to_name(0), None);
}

#[test]
fn speaker_is_none_until_one_is_set() {
    let m = model();
    assert_eq!(m.get_speaker(), Ok(None));
}

#[test]
fn set_speaker_selects_by_name() {
    let mut m = model();
    assert_eq!(m.set_speaker("cleo".to_string()), Ok(()));
    assert_eq!(m.get_speaker(), Ok(Some("cleo".to_string())));
    match m.fallback_synthesis_config() {
        SynthesisConfig::Piper(c) => {
            assert_eq!(c.speaker, Some(3));
            assert_eq!(c.length_scale, 1.0f32.to_bits());
            assert_eq!(c.noise_scale, 0.667f32.to_bits());
            assert_eq!(c.noise_w, 0.8f32.to_bits());
        }
        SynthesisConfig::Foreign => panic!("the configuration changed its shape"),
    }
}

#[test]
fn set_speaker_with_unknown_name_fails_and_changes_nothing() {
    let mut m = model();
    m.set_speaker("anna".to_string()).unwrap();
    let before = m.fallback_synthesis_config();
    let r = m.set_speaker("dora".to_string());
    assert_eq!(
        r,
        Err(SonataError::NotFound("A speaker with the given name `dora` was not found".to_string()))
    );
    assert_eq!(m.fallback_synthesis_config(), before);
    assert_eq!(m.get_speaker(), Ok(Some("anna".to_string())));
    assert_eq!(m.speakers(), Some(&speakers()));
}

#[test]
fn get_speaker_of_an_unlisted_id_is_none() {
    let config = SynthesisConfig::Piper(PiperSynthesisConfig {
        speaker: Some(99),
        length_scale: 0,
        noise_scale: 0,
        noise_w: 0,
    });
    let m = PiperModel::new(info(), None, Some(speakers()), config).unwrap();
    assert_eq!(m.get_speaker(), Ok(None));
}

#[test]
fn scales_read_back_bit_for_bit() {
    let mut m = model();
    let a = 1.25f32.to_bits();
    let b = 0.333f32.to_bits();
    let c = f32::NAN.to_bits();
    assert_eq!(m.set_scales(a, b, c), Ok(()));
    assert_eq!(m.get_scales(), Ok(PiperScales { length_scale: a, noise_scale: b, noise_w: c }));
}

#[test]
fn set_scales_keeps_the_speaker() {
    let mut m = model();
    m.set_speaker("bert".to_string()).unwrap();
    m.set_scales(1, 2, 3).unwrap();
    assert_eq!(m.get_speaker(), Ok(Some("bert".to_string())));
    assert_eq!(m.get_scales(), PiperScales::new(1, 2, 3));
}

#[test]
fn foreign_configuration_is_a_capability_error() {
    let mut m = PiperModel::new(info(), None, Some(speakers()), SynthesisConfig::Foreign).unwrap();
    let unsupported = SonataError::ModelCapability(
        "Cannot set synthesis config".to_string(),
    );
    assert_eq!(m.get_speaker(), Err(unsupported.clone()));
    assert_eq!(m.get_scales(), Err(unsupported.clone()));
    assert_eq!(m.set_scales(1, 2, 3), Err(unsupported.clone()));
    assert_eq!(m.set_speaker("anna".to_string()), Err(unsupported));
    assert_eq!(m.fallback_synthesis_config(), SynthesisConfig::Foreign);
}

#[test]
fn unknown_name_is_reported_before_the_shape_of_the_configuration() {
    let mut m = PiperModel::new(info(), None, Some(speakers()), SynthesisConfig::Foreign).unwrap();
    assert_eq!(m.set_speaker("dora".to_string()).unwrap_err().kind(), ErrorKind::NotFound);
}

#[test]
fn error_gives_kind_and_message() {
    let e = SonataError::Io("disk full".to_string());
    assert_eq!(e.kind(), ErrorKind::Io);
    assert_eq!(e.message(), "disk full");
    assert_eq!(SonataError::Inference("x".to_string()).kind(), ErrorKind::Inference);
    assert_eq!(SonataError::ModelCapability("x".to_string()).kind(), ErrorKind::ModelCapability);
    assert_eq!(SonataError::NotFound("x".to_string()).kind(), ErrorKind::NotFound);
    assert_eq!(SonataError::Operation("x".to_string()).kind(), ErrorKind::Operation);
}

#[test]
fn configuration_narrows_to_its_shape() {
    let c = PiperSynthesisConfig { speaker: Some(2), length_scale: 5, noise_scale: 6, noise_w: 7 };
    assert_eq!(SynthesisConfig::Piper(c).try_as_piper(), Ok(c));
    assert_eq!(
        SynthesisConfig::Foreign.try_as_piper(),
        Err(SonataError::ModelCapability("Cannot set synthesis config".to_string()))
    );
}

#[test]
fn configuration_is_replaced_as_a_whole() {
    let mut m = model();
    let c = SynthesisConfig::Piper(PiperSynthesisConfig {
        speaker: Some(7),
        length_scale: 11,
        noise_scale: 12,
        noise_w: 13,
    });
    assert_eq!(m.set_fallback_synthesis_config(c), Ok(()));
    assert_eq!(m.fallback_synthesis_config(), c);
    assert_eq!(m.get_speaker(), Ok(Some("bert".to_string())));
    assert_eq!(m.get_scales(), PiperScales::new(11, 12, 13));
}

#[test]
fn configuration_of_another_shape_is_rejected() {
    let mut m = model();
    let before = m.fallback_synthesis_config();
    assert_eq!(
        m.set_fallback_synthesis_config(SynthesisConfig::Foreign),
        Err(SonataError::ModelCapability("Cannot set synthesis config".to_string()))
    );
    assert_eq!(m.fallback_synthesis_config(), before);
    let mut foreign = PiperModel::new(info(), None, None, SynthesisConfig::Foreign).unwrap();
    assert_eq!(foreign.set_fallback_synthesis_config(SynthesisConfig::Foreign), Ok(()));
    assert_eq!(foreign.set_fallback_synthesis_config(piper_config()).unwrap_err().kind(), ErrorKind::ModelCapability);
    assert_eq!(foreign.fallback_synthesis_config(), SynthesisConfig::Foreign);
}
