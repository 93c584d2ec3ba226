//! The sound of a recording: the microphone, what the system plays, or both
//! mixed.
use crate::text;
use vstd::prelude::*;

verus! {

/// The pipeline branch of the microphone alone.
pub const MIC_BRANCH: &'static str = "pulsesrc ! queue ! audioconvert ! audioresample ! avenc_aac ! mux.audio_0";

/// The pipeline branch of what the system plays alone.
pub const SYSTEM_BRANCH: &'static str = "pulsesrc device=@DEFAULT_MONITOR@ ! queue ! audioconvert ! audioresample ! avenc_aac ! mux.audio_0";

/// The pipeline branch of both, mixed.
pub const MIXED_BRANCH: &'static str = "pulsesrc ! queue ! amix.sink_0 pulsesrc device=@DEFAULT_MONITOR@ ! queue ! amix.sink_1 audiomixer name=amix ! audioconvert ! audioresample ! avenc_aac ! mux.audio_0";

/// The branch for a choice of sources; nothing for none.
pub open spec fn branch_text(mic: bool, system: bool) -> Seq<char> {
    if mic && system {
        MIXED_BRANCH@
    } else if mic {
        MIC_BRANCH@
    } else if system {
        SYSTEM_BRANCH@
    } else {
        Seq::empty()
    }
}

/// The branch for a choice of sources, as text; the muxer is named `mux`.
pub fn audio_branch_str(mic: bool, system: bool) -> (s: String)
    ensures
        s@ == branch_text(mic, system),
{
    match (mic, system) {
        (false, false) => String::new(),
        (true, false) => text::owned(MIC_BRANCH),
        (false, true) => text::owned(SYSTEM_BRANCH),
        (true, true) => text::owned(MIXED_BRANCH),
    }
}

/// An element of the branch.
#[derive(Clone, Copy, Debug, PartialEq, Eq, Structural)]
pub enum AudioElement {
    MicSource,
    MicQueue,
    SystemSource,
    SystemQueue,
    Mixer,
    Convert,
    Resample,
    Encoder,
}

/// Two elements, the first feeding the second.
#[derive(Clone, Copy, Debug, PartialEq, Eq, Structural)]
pub struct AudioLink {
    pub from: AudioElement,
    pub to: AudioElement,
}

/// The elements of a branch, and how they are linked. The encoder, where there
/// is one, feeds the muxer.
pub struct AudioPlan {
    pub elements: Vec<AudioElement>,
    pub links: Vec<AudioLink>,
}

/// The elements for a choice of sources.
pub open spec fn plan_elements(mic: bool, system: bool) -> Seq<AudioElement> {
    let tail = seq![AudioElement::Convert, AudioElement::Resample, AudioElement::Encoder];
    if mic && system {
        seq![
            AudioElement::MicSource,
            AudioElement::MicQueue,
            AudioElement::SystemSource,
            AudioElement::SystemQueue,
            AudioElement::Mixer,
        ] + tail
    } else if mic {
        seq![AudioElement::MicSource, AudioElement::MicQueue] + tail
    } else if system {
        seq![AudioElement::SystemSource, AudioElement::SystemQueue] + tail
    } else {
        Seq::empty()
    }
}

/// What an element of the branch feeds; the encoder feeds the muxer.
pub open spec fn feeds(mic: bool, system: bool, e: AudioElement) -> Option<AudioElement> {
    let head = if mic && system {
        AudioElement::Mixer
    } else {
        AudioElement::Convert
    };
    match e {
        AudioElement::MicSource => Some(AudioElement::MicQueue),
        AudioElement::SystemSource => Some(AudioElement::SystemQueue),
        AudioElement::MicQueue => Some(head),
        AudioElement::SystemQueue => Some(head),
        AudioElement::Mixer => Some(AudioElement::Convert),
        AudioElement::Convert => Some(AudioElement::Resample),
        AudioElement::Resample => Some(AudioElement::Encoder),
        AudioElement::Encoder => None,
    }
}

/// One link for each element but the encoder, in the elements' order.
pub open spec fn plan_links(mic: bool, system: bool) -> Seq<AudioLink> {
    let e = plan_elements(mic, system);
    Seq::new(
        if e.len() == 0 {
            0
        } else {
            (e.len() - 1) as nat
        },
        |i: int| AudioLink { from: e[i], to: feeds(mic, system, e[i])->0 },
    )
}

/// The branch for a choice of sources, element by element.
pub fn audio_plan(mic: bool, system: bool) -> (p: AudioPlan)
    ensures
        p.elements@ == plan_elements(mic, system),
        p.links@ == plan_links(mic, system),
{
    let mut elements: Vec<AudioElement> = Vec::new();
    if mic {
        elements.push(AudioElement::MicSource);
        elements.push(AudioElement::MicQueue);
    }
    if system {
        elements.push(AudioElement::SystemSource);
        elements.push(AudioElement::SystemQueue);
    }
    if mic && system {
        elements.push(AudioElement::Mixer);
    }
    if mic || system {
        elements.push(AudioElement::Convert);
        elements.push(AudioElement::Resample);
        elements.push(AudioElement::Encoder);
    }
    assert(elements@ =~= plan_elements(mic, system));
    let mut links: Vec<AudioLink> = Vec::new();
    let mut i: usize = 0;
    while i + 1 < elements.len()
        invariant
            elements@ == plan_elements(mic, system),
            elements@.len() <= 8,
            i <= elements@.len(),
            links@.len() == i,
            i <= plan_links(mic, system).len(),
            forall|j: int| 0 <= j < i ==> links@[j] == plan_links(mic, system)[j],
        decreases elements@.len() - i,
    {
        let head = if mic && system { AudioElement::Mixer } else { AudioElement::Convert };
        let from = elements[i];
        let to = match from {
            AudioElement::MicSource => AudioElement::MicQueue,
            AudioElement::SystemSource => AudioElement::SystemQueue,
            AudioElement::MicQueue | AudioElement::SystemQueue => head,
            AudioElement::Mixer => AudioElement::Convert,
            AudioElement::Convert => AudioElement::Resample,
            AudioElement::Resample | AudioElement::Encoder => AudioElement::Encoder,
        };
        links.push(AudioLink { from, to });
        i = i + 1;
    }
    assert(links@ =~= plan_links(mic, system));
    AudioPlan { elements, links }
}

/// Every element of a branch that is not the encoder feeds an element of the
/// branch, so that each source is heard.
pub proof fn every_element_is_linked(mic: bool, system: bool, i: int)
    requires
        0 <= i < plan_elements(mic, system).len(),
        plan_elements(mic, system)[i] != AudioElement::Encoder,
    ensures
        0 <= i < plan_links(mic, system).len(),
        plan_links(mic, system)[i].from == plan_elements(mic, system)[i],
        plan_elements(mic, system).contains(plan_links(mic, system)[i].to),
{
    let e = plan_elements(mic, system);
    let n = e.len();
    assert(e[n - 1] == AudioElement::Encoder);
    assert(e[n - 2] == AudioElement::Resample);
    assert(e[n - 3] == AudioElement::Convert);
    if mic {
        assert(e[1] == AudioElement::MicQueue);
    }
    if system {
        assert(e[if mic { 3 } else { 1 }] == AudioElement::SystemQueue);
    }
    if mic && system {
        assert(e[4] == AudioElement::Mixer);
    }
}

/// A recording sounds of what was asked for and of nothing else: the branch of the
/// system's sound is that of the microphone with the system's device for the source,
/// both together hold both sources, and without either there is no branch. Each branch
/// ends at the muxer.
pub proof fn recordings_sound_as_asked_for() -> (rest: Seq<char>)
    ensures
        branch_text(false, false).len() == 0,
        branch_text(true, false) == "pulsesrc"@ + rest,
        branch_text(false, true) == "pulsesrc device=@DEFAULT_MONITOR@"@ + rest,
        text::holds(branch_text(true, true), "pulsesrc ! queue ! amix.sink_0 "@),
        text::holds(
            branch_text(true, true),
            "pulsesrc device=@DEFAULT_MONITOR@ ! queue ! amix.sink_1 "@,
        ),
        text::ends(rest, " ! avenc_aac ! mux.audio_0"@),
        text::ends(
            branch_text(true, true),
            "audiomixer name=amix ! audioconvert ! audioresample ! avenc_aac ! mux.audio_0"@,
        ),
{
    lemma_single_branches();
    lemma_mixed_branch();
    " ! queue ! audioconvert ! audioresample ! avenc_aac ! mux.audio_0"@
}

proof fn lemma_single_branches()
    ensures
        MIC_BRANCH@ == "pulsesrc"@
            + " ! queue ! audioconvert ! audioresample ! avenc_aac ! mux.audio_0"@,
        SYSTEM_BRANCH@ == "pulsesrc device=@DEFAULT_MONITOR@"@
            + " ! queue ! audioconvert ! audioresample ! avenc_aac ! mux.audio_0"@,
        text::ends(
            " ! queue ! audioconvert ! audioresample ! avenc_aac ! mux.audio_0"@,
            " ! avenc_aac ! mux.audio_0"@,
        ),
{
    let rest = " ! queue ! audioconvert ! audioresample ! avenc_aac ! mux.audio_0"@;
    let end = " ! avenc_aac ! mux.audio_0"@;
    reveal_strlit("pulsesrc ! queue ! audioconvert ! audioresample ! avenc_aac ! mux.audio_0");
    reveal_strlit(
        "pulsesrc device=@DEFAULT_MONITOR@ ! queue ! audioconvert ! audioresample ! avenc_aac ! mux.audio_0",
    );
    reveal_strlit("pulsesrc");
    reveal_strlit("pulsesrc device=@DEFAULT_MONITOR@");
    reveal_strlit(" ! queue ! audioconvert ! audioresample ! avenc_aac ! mux.audio_0");
    reveal_strlit(" ! avenc_aac ! mux.audio_0");
    assert(MIC_BRANCH@ =~= "pulsesrc"@ + rest);
    assert(SYSTEM_BRANCH@ =~= "pulsesrc device=@DEFAULT_MONITOR@"@ + rest);
    assert(rest.skip(rest.len() - end.len()) =~= end);
}

proof fn lemma_mixed_branch()
    ensures
        text::holds(MIXED_BRANCH@, "pulsesrc ! queue ! amix.sink_0 "@),
        text::holds(MIXED_BRANCH@, "pulsesrc device=@DEFAULT_MONITOR@ ! queue ! amix.sink_1 "@),
        text::ends(
            MIXED_BRANCH@,
            "audiomixer name=amix ! audioconvert ! audioresample ! avenc_aac ! mux.audio_0"@,
        ),
{
    let a = "pulsesrc ! queue ! amix.sink_0 "@;
    let b = "pulsesrc device=@DEFAULT_MONITOR@ ! queue ! amix.sink_1 "@;
    let c = "audiomixer name=amix ! audioconvert ! audioresample ! avenc_aac ! mux.audio_0"@;
    reveal_strlit(
        "pulsesrc ! queue ! amix.sink_0 pulsesrc device=@DEFAULT_MONITOR@ ! queue ! amix.sink_1 audiomixer name=amix ! audioconvert ! audioresample ! avenc_aac ! mux.audio_0",
    );
    reveal_strlit("pulsesrc ! queue ! amix.sink_0 ");
    reveal_strlit("pulsesrc device=@DEFAULT_MONITOR@ ! queue ! amix.sink_1 ");
    reveal_strlit(
        "audiomixer name=amix ! audioconvert ! audioresample ! avenc_aac ! mux.audio_0",
    );
    assert(MIXED_BRANCH@ =~= a + b + c);
    let none = Seq::<char>::empty();
    text::lemma_ends(none, a);
    assert(none + a =~= a);
    text::lemma_ends_holds(a, a, b);
    text::lemma_holds_on(a + b, a, c);
    text::lemma_holds(a, b, c);
    text::lemma_ends(a + b, c);
}

/// The elements of a branch are those of the sources asked for and of no other: the
/// microphone's where it was asked for, the system's where that was, a mixer where both
/// were, and an encoder where any was.
pub proof fn each_source_has_its_elements(mic: bool, system: bool)
    ensures
        plan_elements(mic, system).contains(AudioElement::MicSource) <==> mic,
        plan_elements(mic, system).contains(AudioElement::SystemSource) <==> system,
        plan_elements(mic, system).contains(AudioElement::Mixer) <==> mic && system,
        plan_elements(mic, system).contains(AudioElement::Encoder) <==> mic || system,
        plan_elements(mic, system).no_duplicates(),
{
    let e = plan_elements(mic, system);
    if mic {
        assert(e[0] == AudioElement::MicSource);
    }
    if system {
        assert(e[if mic { 2 } else { 0 }] == AudioElement::SystemSource);
    }
    if mic && system {
        assert(e[4] == AudioElement::Mixer);
    }
    if mic || system {
        assert(e[e.len() - 1] == AudioElement::Encoder);
    }
}

/// What the element that another one feeds is fed to in turn, `n` times over.
pub open spec fn fed(mic: bool, system: bool, e: AudioElement, n: nat) -> Option<AudioElement>
    decreases n,
{
    if n == 0 {
        Some(e)
    } else {
        match feeds(mic, system, e) {
            Some(f) => fed(mic, system, f, (n - 1) as nat),
            None => None,
        }
    }
}

/// Each source goes through its queue, through the mixer where there is another one, is
/// converted and resampled, and reaches the encoder.
pub proof fn each_source_reaches_the_encoder(mic: bool, system: bool)
    ensures
        ({
            let mixed = if mic && system {
                1nat
            } else {
                0nat
            };
            &&& fed(mic, system, AudioElement::MicSource, 1) == Some(AudioElement::MicQueue)
            &&& fed(mic, system, AudioElement::SystemSource, 1) == Some(AudioElement::SystemQueue)
            &&& mic && system ==> fed(mic, system, AudioElement::MicSource, 2) == Some(
                AudioElement::Mixer,
            ) && fed(mic, system, AudioElement::SystemSource, 2) == Some(AudioElement::Mixer)
            &&& fed(mic, system, AudioElement::MicSource, 2 + mixed) == Some(AudioElement::Convert)
            &&& fed(mic, system, AudioElement::SystemSource, 2 + mixed) == Some(
                AudioElement::Convert,
            )
            &&& fed(mic, system, AudioElement::Convert, 1) == Some(AudioElement::Resample)
            &&& fed(mic, system, AudioElement::Convert, 2) == Some(AudioElement::Encoder)
            &&& fed(mic, system, AudioElement::Encoder, 1) is None
        }),
        forall|i: int|
            0 <= i < plan_links(mic, system).len() ==> Some((#[trigger] plan_links(mic, system)[i]).to)
                == fed(mic, system, plan_links(mic, system)[i].from, 1),
{
    reveal_with_fuel(fed, 5);
    let e = plan_elements(mic, system);
    assert forall|i: int| 0 <= i < plan_links(mic, system).len() implies Some(
        (#[trigger] plan_links(mic, system)[i]).to,
    ) == fed(mic, system, plan_links(mic, system)[i].from, 1) by {
        assert(e[i] != AudioElement::Encoder);
    }
}

} // verus!
