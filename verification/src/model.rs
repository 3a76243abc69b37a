//! What the engine knows of a voice model, and the accessors to the
//! synthesis configuration that the model falls back on.

use vstd::prelude::*;
use crate::audio::AudioInfo;
use crate::error::{ErrorKind, ErrorView, SonataError};

verus! {

/// The three scales of a Piper voice. Each is held as the bit pattern of a
/// single-precision number, so that a scale that is written is read back
/// bit for bit.
#[derive(Clone, Copy, Debug, PartialEq, Eq, Structural)]
pub struct PiperScales {
    pub length_scale: u32,
    pub noise_scale: u32,
    pub noise_w: u32,
}

impl PiperScales {
    /// The three scales together. This never fails.
    pub fn new(length_scale: u32, noise_scale: u32, noise_w: u32) -> (scales: Result<
        Self,
        SonataError,
    >)
        ensures
            scales == Ok::<PiperScales, SonataError>(
                PiperScales { length_scale, noise_scale, noise_w },
            ),
    {
        Ok(PiperScales { length_scale, noise_scale, noise_w })
    }
}

/// The synthesis configuration of a Piper voice.
#[derive(Clone, Copy, Debug, PartialEq, Eq, Structural)]
pub struct PiperSynthesisConfig {
    pub speaker: Option<i64>,
    pub length_scale: u32,
    pub noise_scale: u32,
    pub noise_w: u32,
}

/// The configuration that a model falls back on when a request brings none.
/// Its shape depends on the kind of model.
#[derive(Clone, Copy, Debug, PartialEq, Eq, Structural)]
pub enum SynthesisConfig {
    /// The configuration of a Piper voice.
    Piper(PiperSynthesisConfig),
    /// A configuration of a shape that this library cannot read.
    Foreign,
}

/// One entry of a model's speaker directory.
#[derive(Clone, Debug, PartialEq, Eq)]
pub struct Speaker {
    pub id: i64,
    pub name: String,
}

/// A speaker directory as contracts see it: pairs of id and name.
pub type Directory = Seq<(i64, Seq<char>)>;

/// The pairs that a list of speakers holds, in its order.
pub open spec fn directory_of(speakers: Seq<Speaker>) -> Directory {
    Seq::new(speakers.len(), |i: int| (speakers[i].id, speakers[i].name@))
}

/// No id and no name occurs in two entries.
pub open spec fn distinct_speakers(directory: Directory) -> bool {
    forall|i: int, j: int|
        0 <= i < j < directory.len() ==> directory[i].0 != directory[j].0 && directory[i].1
            != directory[j].1
}

/// A model as contracts see it.
pub ghost struct ModelView {
    pub info: AudioInfo,
    pub language: Option<Seq<char>>,
    pub speakers: Option<Directory>,
    pub config: SynthesisConfig,
}

impl ModelView {
    /// The entries of the speaker directory; none where the model has no directory.
    pub open spec fn directory(self) -> Directory {
        match self.speakers {
            Some(directory) => directory,
            None => Seq::empty(),
        }
    }

    /// Whether some entry has this name.
    pub open spec fn has_name(self, name: Seq<char>) -> bool {
        exists|id: i64| self.directory().contains((id, name))
    }

    /// Whether some entry has this id.
    pub open spec fn has_id(self, id: i64) -> bool {
        exists|name: Seq<char>| self.directory().contains((id, name))
    }

    /// The id that stands beside `name` in the directory.
    pub open spec fn id_of(self, name: Seq<char>) -> i64 {
        choose|id: i64| self.directory().contains((id, name))
    }

    /// The name that stands beside `id` in the directory.
    pub open spec fn name_of(self, id: i64) -> Seq<char> {
        choose|name: Seq<char>| self.directory().contains((id, name))
    }

    /// The model with `speaker` selected, where its configuration is a Piper one.
    pub open spec fn with_speaker(self, speaker: i64) -> ModelView {
        match self.config {
            SynthesisConfig::Piper(c) => ModelView {
                config: SynthesisConfig::Piper(
                    PiperSynthesisConfig { speaker: Some(speaker), ..c },
                ),
                ..self
            },
            SynthesisConfig::Foreign => self,
        }
    }

    /// The model with the three scales replaced, where its configuration is a Piper one.
    pub open spec fn with_scales(self, scales: PiperScales) -> ModelView {
        match self.config {
            SynthesisConfig::Piper(c) => ModelView {
                config: SynthesisConfig::Piper(
                    PiperSynthesisConfig {
                        length_scale: scales.length_scale,
                        noise_scale: scales.noise_scale,
                        noise_w: scales.noise_w,
                        ..c
                    },
                ),
                ..self
            },
            SynthesisConfig::Foreign => self,
        }
    }

    /// The three scales of the model, where its configuration is a Piper one.
    pub open spec fn scales(self) -> Option<PiperScales> {
        match self.config {
            SynthesisConfig::Piper(c) => Some(
                PiperScales {
                    length_scale: c.length_scale,
                    noise_scale: c.noise_scale,
                    noise_w: c.noise_w,
                },
            ),
            SynthesisConfig::Foreign => None,
        }
    }
}

/// The failure reported where the model's configuration is not a Piper one.
pub open spec fn unsupported_config() -> ErrorView {
    ErrorView {
        kind: ErrorKind::ModelCapability,
        message: "Cannot set synthesis config"@,
    }
}

/// The failure reported for a speaker name that the model does not know.
pub open spec fn unknown_speaker(name: Seq<char>) -> ErrorView {
    ErrorView {
        kind: ErrorKind::NotFound,
        message: "A speaker with the given name `"@ + name + "` was not found"@,
    }
}

/// The failure reported for a directory in which an id or a name occurs twice.
pub open spec fn ambiguous_directory() -> ErrorView {
    ErrorView {
        kind: ErrorKind::Operation,
        message: "a speaker id or name occurs twice in the directory"@,
    }
}

/// What the engine knows of a voice model: the format of its audio, its
/// language, its speaker directory, and the synthesis configuration that it
/// falls back on. The inference itself is not part of it.
#[derive(Debug, PartialEq, Eq)]
pub struct PiperModel {
    info: AudioInfo,
    language: Option<String>,
    speakers: Option<Vec<Speaker>>,
    config: SynthesisConfig,
}

impl View for PiperModel {
    type V = ModelView;

    closed spec fn view(&self) -> ModelView {
        ModelView {
            info: self.info,
            language: match self.language {
                Some(l) => Some(l@),
                None => None,
            },
            speakers: match self.speakers {
                Some(s) => Some(directory_of(s@)),
                None => None,
            },
            config: self.config,
        }
    }
}

/// The failure for a configuration that is not a Piper one.
fn unsupported() -> (e: SonataError)
    ensures
        e@ == unsupported_config(),
{
    SonataError::ModelCapability(String::from_str("Cannot set synthesis config"))
}

impl SynthesisConfig {
    /// Whether two configurations have the same shape.
    pub open spec fn same_shape(self, other: SynthesisConfig) -> bool {
        (self is Piper) == (other is Piper)
    }

    /// The configuration narrowed to a Piper one. A configuration of another
    /// shape is an error of capability.
    pub fn try_as_piper(&self) -> (piper: Result<PiperSynthesisConfig, SonataError>)
        ensures
            match *self {
                SynthesisConfig::Piper(c) => piper == Ok::<PiperSynthesisConfig, SonataError>(c),
                SynthesisConfig::Foreign => piper.is_err() && piper.unwrap_err()@
                    == unsupported_config(),
            },
    {
        match self {
            SynthesisConfig::Piper(c) => Ok(*c),
            SynthesisConfig::Foreign => Err(unsupported()),
        }
    }
}

/// The directory that an optional list of speakers stands for.
pub open spec fn listed(speakers: Option<Vec<Speaker>>) -> Option<Directory> {
    match speakers {
        Some(s) => Some(directory_of(s@)),
        None => None,
    }
}

/// The characters of an optional string.
pub open spec fn optional_text(text: Option<String>) -> Option<Seq<char>> {
    match text {
        Some(t) => Some(t@),
        None => None,
    }
}

/// Whether no id and no name occurs twice among `speakers`.
fn speakers_are_distinct(speakers: &Vec<Speaker>) -> (distinct: bool)
    ensures
        distinct == distinct_speakers(directory_of(speakers@)),
{
    let ghost directory = directory_of(speakers@);
    let mut j: usize = 0;
    while j < speakers.len()
        invariant
            j <= speakers.len(),
            directory == directory_of(speakers@),
            forall|a: int, b: int|
                0 <= a < b < j ==> directory[a].0 != directory[b].0 && directory[a].1
                    != directory[b].1,
        decreases speakers.len() - j,
    {
        let mut i: usize = 0;
        while i < j
            invariant
                i <= j < speakers.len(),
                directory == directory_of(speakers@),
                forall|a: int|
                    0 <= a < i ==> directory[a].0 != directory[j as int].0 && directory[a].1
                        != directory[j as int].1,
            decreases j - i,
        {
            if speakers[i].id == speakers[j].id || speakers[i].name == speakers[j].name {
                assert(!(directory[i as int].0 != directory[j as int].0 && directory[i as int].1
                    != directory[j as int].1));
                return false;
            }
            i = i + 1;
        }
        j = j + 1;
    }
    true
}

impl PiperModel {
    #[verifier::type_invariant]
    spec fn directory_is_distinct(self) -> bool {
        distinct_speakers(self@.directory())
    }

    /// A model of the given description. A directory in which an id or a
    /// name occurs twice is rejected: a lookup in it would have two answers.
    pub fn new(
        info: AudioInfo,
        language: Option<String>,
        speakers: Option<Vec<Speaker>>,
        config: SynthesisConfig,
    ) -> (model: Result<Self, SonataError>)
        ensures
            match listed(speakers) {
                Some(directory) => distinct_speakers(directory),
                None => true,
            } ==> model.is_ok() && model.unwrap()@ == (ModelView {
                info,
                language: optional_text(language),
                speakers: listed(speakers),
                config,
            }),
            match listed(speakers) {
                Some(directory) => !distinct_speakers(directory),
                None => false,
            } ==> model.is_err() && model.unwrap_err()@ == ambiguous_directory(),
    {
        let distinct = match &speakers {
            Some(s) => speakers_are_distinct(s),
            None => true,
        };
        if !distinct {
            return Err(
                SonataError::Operation(
                    String::from_str("a speaker id or name occurs twice in the directory"),
                ),
            );
        }
        Ok(PiperModel { info, language, speakers, config })
    }

    /// The id of the speaker called `name`, if the directory has one.
    pub fn speaker_name_to_id(&self, name: &String) -> (id: Option<i64>)
        ensures
            match id {
                Some(id) => self@.directory().contains((id, name@)) && id == self@.id_of(name@),
                None => !self@.has_name(name@),
            },
    {
        proof {
            use_type_invariant(self);
        }
        match &self.speakers {
            None => None,
            Some(speakers) => {
                let ghost directory = directory_of(speakers@);
                let mut i: usize = 0;
                while i < speakers.len()
                    invariant
                        i <= speakers.len(),
                        directory == directory_of(speakers@),
                        directory == self@.directory(),
                        distinct_speakers(directory),
                        forall|a: int| 0 <= a < i ==> directory[a].1 != name@,
                    decreases speakers.len() - i,
                {
                    if speakers[i].name == *name {
                        let id: i64 = speakers[i].id;
                        proof {
                            assert(directory[i as int] == (id, name@));
                            lemma_id_of(self@, id, name@);
                        }
                        return Some(id);
                    }
                    i = i + 1;
                }
                None
            },
        }
    }

    /// The name of the speaker with this id, if the directory has one.
    pub fn speaker_id_to_name(&self, id: i64) -> (name: Option<String>)
        ensures
            match name {
                Some(name) => self@.directory().contains((id, name@)) && name@ == self@.name_of(
                    id,
                ),
                None => !self@.has_id(id),
            },
    {
        proof {
            use_type_invariant(self);
        }
        match &self.speakers {
            None => None,
            Some(speakers) => {
                let ghost directory = directory_of(speakers@);
                let mut i: usize = 0;
                while i < speakers.len()
                    invariant
                        i <= speakers.len(),
                        directory == directory_of(speakers@),
                        directory == self@.directory(),
                        distinct_speakers(directory),
                        forall|a: int| 0 <= a < i ==> directory[a].0 != id,
                    decreases speakers.len() - i,
                {
                    if speakers[i].id == id {
                        let name = speakers[i].name.clone();
                        proof {
                            assert(directory[i as int] == (id, name@));
                            lemma_name_of(self@, id, name@);
                        }
                        return Some(name);
                    }
                    i = i + 1;
                }
                None
            },
        }
    }

    /// The name of the speaker that the fallback configuration selects.
    /// `Ok(None)` where it selects none, or one that the directory does not
    /// list. Fails where the configuration is not a Piper one.
    pub fn get_speaker(&self) -> (speaker: Result<Option<String>, SonataError>)
        ensures
            match self@.config {
                SynthesisConfig::Foreign => speaker.is_err() && speaker.unwrap_err()@
                    == unsupported_config(),
                SynthesisConfig::Piper(c) => speaker.is_ok() && match c.speaker {
                    None => speaker.unwrap().is_none(),
                    Some(id) => match speaker.unwrap() {
                        Some(name) => self@.directory().contains((id, name@)) && name@
                            == self@.name_of(id),
                        None => !self@.has_id(id),
                    },
                },
            },
    {
        let c = self.config.try_as_piper()?;
        match c.speaker {
            Some(id) => Ok(self.speaker_id_to_name(id)),
            None => Ok(None),
        }
    }

    /// Selects the speaker called `name` in the fallback configuration. A
    /// name that the directory does not list, or a configuration that is not
    /// a Piper one, is an error, and the model then stays as it was.
    pub fn set_speaker(&mut self, name: String) -> (done: Result<(), SonataError>)
        ensures
            !old(self)@.has_name(name@) ==> done.is_err() && done.unwrap_err()@ == unknown_speaker(
                name@,
            ) && final(self)@ == old(self)@,
            old(self)@.has_name(name@) && old(self)@.config == SynthesisConfig::Foreign
                ==> done.is_err() && done.unwrap_err()@ == unsupported_config() && final(self)@
                == old(self)@,
            old(self)@.has_name(name@) && old(self)@.config != SynthesisConfig::Foreign
                ==> done.is_ok() && final(self)@ == old(self)@.with_speaker(
                old(self)@.id_of(name@),
            ),
    {
        proof {
            use_type_invariant(&*self);
        }
        let id: i64 = match self.speaker_name_to_id(&name) {
            Some(id) => id,
            None => {
                let mut message = String::from_str("A speaker with the given name `");
                message.append(name.as_str());
                message.append("` was not found");
                return Err(SonataError::NotFound(message));
            },
        };
        let c = self.config.try_as_piper()?;
        self.set_fallback_synthesis_config(
            SynthesisConfig::Piper(PiperSynthesisConfig { speaker: Some(id), ..c }),
        )
    }

    /// The three scales of the fallback configuration. Fails where the
    /// configuration is not a Piper one.
    pub fn get_scales(&self) -> (scales: Result<PiperScales, SonataError>)
        ensures
            match self@.scales() {
                Some(s) => scales == Ok::<PiperScales, SonataError>(s),
                None => scales.is_err() && scales.unwrap_err()@ == unsupported_config(),
            },
    {
        let c = self.config.try_as_piper()?;
        Ok(
            PiperScales {
                length_scale: c.length_scale,
                noise_scale: c.noise_scale,
                noise_w: c.noise_w,
            },
        )
    }

    /// Replaces the three scales of the fallback configuration in one step;
    /// the selected speaker stays. Fails, and changes nothing, where the
    /// configuration is not a Piper one.
    pub fn set_scales(&mut self, length_scale: u32, noise_scale: u32, noise_w: u32) -> (done:
        Result<(), SonataError>)
        ensures
            final(self)@ == old(self)@.with_scales(
                PiperScales { length_scale, noise_scale, noise_w },
            ),
            old(self)@.config != SynthesisConfig::Foreign ==> done.is_ok(),
            old(self)@.config == SynthesisConfig::Foreign ==> done.is_err() && done.unwrap_err()@
                == unsupported_config(),
    {
        let c = self.config.try_as_piper()?;
        self.set_fallback_synthesis_config(
            SynthesisConfig::Piper(
                PiperSynthesisConfig { length_scale, noise_scale, noise_w, ..c },
            ),
        )
    }

    /// Replaces the configuration that the model falls back on, as a whole.
    /// A configuration of another shape than the model's own is an error of
    /// capability, and the model then stays as it was.
    pub fn set_fallback_synthesis_config(&mut self, config: SynthesisConfig) -> (done: Result<
        (),
        SonataError,
    >)
        ensures
            old(self)@.config.same_shape(config) ==> done.is_ok() && final(self)@ == (ModelView {
                config,
                ..old(self)@
            }),
            !old(self)@.config.same_shape(config) ==> done.is_err() && done.unwrap_err()@
                == unsupported_config() && final(self)@ == old(self)@,
    {
        proof {
            use_type_invariant(&*self);
        }
        let fits = match (self.config, config) {
            (SynthesisConfig::Piper(_), SynthesisConfig::Piper(_)) => true,
            (SynthesisConfig::Foreign, SynthesisConfig::Foreign) => true,
            _ => false,
        };
        if !fits {
            return Err(unsupported());
        }
        self.config = config;
        Ok(())
    }

    /// The format of the audio that the model produces.
    pub fn audio_output_info(&self) -> (info: AudioInfo)
        ensures
            info == self@.info,
    {
        self.info
    }

    /// The language of the model, where it names one.
    pub fn language(&self) -> (language: Option<String>)
        ensures
            optional_text(language) == self@.language,
    {
        match &self.language {
            Some(l) => Some(l.clone()),
            None => None,
        }
    }

    /// The speaker directory, where the model has one.
    pub fn speakers(&self) -> (speakers: Option<&Vec<Speaker>>)
        ensures
            match speakers {
                Some(s) => self@.speakers == Some(directory_of(s@)),
                None => self@.speakers.is_none(),
            },
    {
        match &self.speakers {
            Some(s) => Some(s),
            None => None,
        }
    }

    /// The configuration that the model falls back on.
    pub fn fallback_synthesis_config(&self) -> (config: SynthesisConfig)
        ensures
            config == self@.config,
    {
        self.config
    }
}

/// In a directory without repetitions the id beside a name is the only one.
pub proof fn lemma_id_of(model: ModelView, id: i64, name: Seq<char>)
    requires
        distinct_speakers(model.directory()),
        model.directory().contains((id, name)),
    ensures
        model.has_name(name),
        model.id_of(name) == id,
{
    let other = model.id_of(name);
    assert(model.directory().contains((other, name)));
    let i = choose|i: int| 0 <= i < model.directory().len() && model.directory()[i] == (id, name);
    let j = choose|j: int|
        0 <= j < model.directory().len() && model.directory()[j] == (other, name);
    if i < j {
        assert(model.directory()[i].1 != model.directory()[j].1);
    } else if j < i {
        assert(model.directory()[j].1 != model.directory()[i].1);
    }
}

/// In a directory without repetitions the name beside an id is the only one.
pub proof fn lemma_name_of(model: ModelView, id: i64, name: Seq<char>)
    requires
        distinct_speakers(model.directory()),
        model.directory().contains((id, name)),
    ensures
        model.has_id(id),
        model.name_of(id) == name,
{
    let other = model.name_of(id);
    assert(model.directory().contains((id, other)));
    let i = choose|i: int| 0 <= i < model.directory().len() && model.directory()[i] == (id, name);
    let j = choose|j: int|
        0 <= j < model.directory().len() && model.directory()[j] == (id, other);
    if i < j {
        assert(model.directory()[i].0 != model.directory()[j].0);
    } else if j < i {
        assert(model.directory()[j].0 != model.directory()[i].0);
    }
}

/// Scales that were written are the scales that are read: on a model with a
/// Piper configuration, `get_scales` after `set_scales` gives back the three
/// scales bit for bit, and the selected speaker is the one from before.
pub proof fn lemma_scales_round_trip(model: ModelView, scales: PiperScales)
    requires
        model.config != SynthesisConfig::Foreign,
    ensures
        model.with_scales(scales).scales() == Some(scales),
        model.with_scales(scales).config->Piper_0.speaker == model.config->Piper_0.speaker,
        model.with_scales(scales).directory() == model.directory(),
{
}

/// A speaker that was selected by name is the speaker that is read: on a
/// model with a Piper configuration and a directory without repetitions,
/// the selected id is the one beside the name, and the name beside that id
/// is the name that was given.
pub proof fn lemma_speaker_round_trip(model: ModelView, name: Seq<char>)
    requires
        distinct_speakers(model.directory()),
        model.config != SynthesisConfig::Foreign,
        model.has_name(name),
    ensures
        model.with_speaker(model.id_of(name)).config->Piper_0.speaker == Some(model.id_of(name)),
        model.with_speaker(model.id_of(name)).name_of(model.id_of(name)) == name,
        model.with_speaker(model.id_of(name)).scales() == model.scales(),
{
    let id = model.id_of(name);
    assert(model.directory().contains((id, name)));
    lemma_name_of(model.with_speaker(id), id, name);
}

} // verus!
