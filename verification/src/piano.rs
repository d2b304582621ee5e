//! The synthesizer: one for the roll, one for the menu's keyboard, which the mouse plays.
use crate::player::POLYPHONY;
use std::sync::Arc;
use vstd::prelude::*;

verus! {

/// A synthesizer. What its voices sound like is not looked into.
#[verifier::external_type_specification]
#[verifier::external_body]
pub struct ExSynthesizer(rustysynth::Synthesizer);

/// A sound font.
#[verifier::external_type_specification]
#[verifier::external_body]
pub struct ExSoundFont(rustysynth::SoundFont);

/// Why there is no synthesizer.
#[verifier::external_type_specification]
#[verifier::external_body]
pub struct ExSynthesizerError(rustysynth::SynthesizerError);

/// The channels and keys of the voices that are being held: active, and not asked to fade.
pub uninterp spec fn keys_held(synth: rustysynth::Synthesizer) -> Set<(int, int)>;

/// The rate, in frames a second, and the number of voices that a synthesizer was made with.
pub uninterp spec fn settings_of(synth: rustysynth::Synthesizer) -> (int, int);

/// The rate that an error reports as out of range; `None` for errors of other kinds.
pub uninterp spec fn rate_reported(e: rustysynth::SynthesizerError) -> Option<int>;

/// The sound font that a synthesizer plays.
pub uninterp spec fn font_of(synth: rustysynth::Synthesizer) -> rustysynth::SoundFont;

/// Whether lifting a key of a channel can turn the first synthesizer into the second.
pub uninterp spec fn lift_turns(
    before: rustysynth::Synthesizer,
    channel: int,
    key: int,
    after: rustysynth::Synthesizer,
) -> bool;

/// Whether striking a key of a channel with some velocity can turn the first synthesizer into
/// the second.
pub uninterp spec fn strike_turns(
    before: rustysynth::Synthesizer,
    channel: int,
    key: int,
    velocity: int,
    after: rustysynth::Synthesizer,
) -> bool;

/// `rustysynth::Synthesizer::new`, with `SynthesizerSettings::new` and its `maximum_polyphony`.
/// Claimed: with 8 to 256 voices it succeeds exactly for rates from 16000 to 192000, and for any
/// other reports that rate; a new synthesizer has the rate, the number of voices and the font that
/// it was asked for, and holds no key.
#[verifier::external_body]
fn new_synthesizer(font: &Arc<rustysynth::SoundFont>, rate: i32, voices: usize) -> (r: Result<
    rustysynth::Synthesizer,
    rustysynth::SynthesizerError,
>)
    requires
        8 <= voices <= 256,
    ensures
        (r is Ok) == (16_000 <= rate <= 192_000),
        r matches Err(e) ==> rate_reported(e) == Some(rate as int),
        r matches Ok(synth) ==> settings_of(synth) == (rate as int, voices as int),
        r matches Ok(synth) ==> font_of(synth) == **font,
        r matches Ok(synth) ==> keys_held(synth) == Set::<(int, int)>::empty(),
{
    let mut settings = rustysynth::SynthesizerSettings::new(rate);
    settings.maximum_polyphony = voices;
    rustysynth::Synthesizer::new(font, &settings)
}

/// `rustysynth::Synthesizer::note_off`. Claimed: the voices of that key on that channel are asked
/// to fade, and no others; rate, number of voices and font stay.
#[verifier::external_body]
fn lift(synth: &mut rustysynth::Synthesizer, channel: i32, key: i32)
    requires
        0 <= channel < 16,
        0 <= key < 256,
    ensures
        lift_turns(*old(synth), channel as int, key as int, *final(synth)),
        keys_held(*final(synth)) == keys_held(*old(synth)).remove((channel as int, key as int)),
        settings_of(*final(synth)) == settings_of(*old(synth)),
        font_of(*final(synth)) == font_of(*old(synth)),
{
    synth.note_off(channel, key)
}

/// `rustysynth::Synthesizer::note_on`. Claimed: no key becomes held but the one struck; rate,
/// number of voices and font stay. It is left open whether the key becomes held, which rests on
/// what regions the font has for it, and whether other keys stay held: where all voices are busy,
/// one of them is taken.
#[verifier::external_body]
fn strike(synth: &mut rustysynth::Synthesizer, channel: i32, key: i32, velocity: i32)
    requires
        0 <= channel < 16,
        0 <= key < 256,
        0 < velocity < 128,
    ensures
        strike_turns(*old(synth), channel as int, key as int, velocity as int, *final(synth)),
        keys_held(*final(synth)).subset_of(
            keys_held(*old(synth)).insert((channel as int, key as int)),
        ),
        settings_of(*final(synth)) == settings_of(*old(synth)),
        font_of(*final(synth)) == font_of(*old(synth)),
{
    synth.note_on(channel, key, velocity)
}

/// Why there is no synthesizer: the device's rate is out of range.
#[derive(Debug)]
pub struct SynthError(pub rustysynth::SynthesizerError);

/// A rate as a signed number; rates of 2^31 and more wrap around.
pub open spec fn signed(rate: u32) -> int {
    if rate <= i32::MAX {
        rate as int
    } else {
        rate - 0x1_0000_0000
    }
}

fn signed_rate(rate: u32) -> (r: i32)
    ensures
        r == signed(rate),
{
    if rate <= i32::MAX as u32 {
        rate as i32
    } else {
        -((u32::MAX - rate) as i32) - 1
    }
}

/// Whether a synthesizer can run at this rate.
pub open spec fn playable(rate: u32) -> bool {
    16_000 <= rate <= 192_000
}

/// The synthesizer that plays the roll. Passages with the sustain pedal down hold many voices, so
/// it has as many as there can be.
pub fn roll_synthesizer(font: &Arc<rustysynth::SoundFont>, rate: u32) -> (r: Result<
    rustysynth::Synthesizer,
    SynthError,
>)
    ensures
        r is Ok <==> playable(rate),
        r matches Err(e) ==> rate_reported(e.0) == Some(signed(rate)),
        r matches Ok(synth) ==> {
            &&& settings_of(synth) == (rate as int, POLYPHONY as int)
            &&& font_of(synth) == **font
            &&& keys_held(synth) == Set::<(int, int)>::empty()
        },
{
    match new_synthesizer(font, signed_rate(rate), POLYPHONY) {
        Ok(synth) => Ok(synth),
        Err(e) => Err(SynthError(e)),
    }
}

/// How many voices the menu's keyboard has.
pub const LIVE_POLYPHONY: usize = 64;

/// How hard the mouse strikes.
pub const VELOCITY: i32 = 96;

/// The menu's keyboard, played with the mouse: a synthesizer, and the key being held.
#[derive(Debug)]
pub struct LivePiano {
    pub synth: rustysynth::Synthesizer,
    pub held: Option<u8>,
}

/// The one key that may be held, as the synthesizer counts it.
pub open spec fn only(held: Option<u8>) -> Set<(int, int)> {
    match held {
        Some(k) => Set::empty().insert((0, k as int)),
        None => Set::empty(),
    }
}

/// What is done to a key.
pub enum Touch {
    /// It is switched on.
    Strike(u8),
    /// It is switched off.
    Lift(u8),
}

/// What is done when `key` is to be held in place of `held`: nothing if it is the same, and
/// otherwise the one is lifted and the other struck, where there are such.
pub open spec fn touches(held: Option<u8>, key: Option<u8>) -> Seq<Touch> {
    if key == held {
        Seq::empty()
    } else {
        (match held {
            Some(k) => seq![Touch::Lift(k)],
            None => Seq::empty(),
        }) + (match key {
            Some(k) => seq![Touch::Strike(k)],
            None => Seq::empty(),
        })
    }
}

/// Whether a touch can turn the first synthesizer into the second. All is played on the first
/// channel.
pub open spec fn touch_turns(
    before: rustysynth::Synthesizer,
    touch: Touch,
    after: rustysynth::Synthesizer,
) -> bool {
    match touch {
        Touch::Strike(k) => strike_turns(before, 0, k as int, VELOCITY as int, after),
        Touch::Lift(k) => lift_turns(before, 0, k as int, after),
    }
}

/// Whether these touches, one after the other and nothing else, can turn the first synthesizer
/// into the second.
pub open spec fn touches_turn(
    before: rustysynth::Synthesizer,
    all: Seq<Touch>,
    after: rustysynth::Synthesizer,
) -> bool
    decreases all.len(),
{
    if all.len() == 0 {
        after == before
    } else {
        exists|between: rustysynth::Synthesizer|
            touches_turn(before, all.drop_last(), between) && #[trigger] touch_turns(
                between,
                all.last(),
                after,
            )
    }
}

/// The keys that are switched on and not yet switched off.
pub open spec fn switched_on(all: Seq<Touch>) -> Set<u8>
    decreases all.len(),
{
    if all.len() == 0 {
        Set::empty()
    } else {
        match all.last() {
            Touch::Strike(k) => switched_on(all.drop_last()).insert(k),
            Touch::Lift(k) => switched_on(all.drop_last()).remove(k),
        }
    }
}

impl LivePiano {
    /// Whether the synthesizer holds no key but the one that the mouse is on.
    pub open spec fn tidy(&self) -> bool {
        keys_held(self.synth).subset_of(only(self.held))
    }

    /// A keyboard with no key held.
    pub fn new(font: &Arc<rustysynth::SoundFont>, rate: u32) -> (r: Result<LivePiano, SynthError>)
        ensures
            r is Ok <==> playable(rate),
            r matches Err(e) ==> rate_reported(e.0) == Some(signed(rate)),
            r matches Ok(piano) ==> {
                &&& piano.held is None
                &&& settings_of(piano.synth) == (rate as int, 64int)
                &&& font_of(piano.synth) == **font
                &&& piano.tidy()
            },
    {
        match new_synthesizer(font, signed_rate(rate), LIVE_POLYPHONY) {
            Ok(synth) => Ok(LivePiano { synth, held: None }),
            Err(e) => Err(SynthError(e)),
        }
    }

    /// Releases the held key (if any) and presses `key` (if any); dragging across keys plays each
    /// in turn. A key that is held already is left alone.
    pub fn hold(&mut self, key: Option<u8>)
        ensures
            held_in_turn(*old(self), key, *final(self)),
            settings_of(final(self).synth) == settings_of(old(self).synth),
            font_of(final(self).synth) == font_of(old(self).synth),
            key is None ==> keys_held(final(self).synth) == match old(self).held {
                Some(k) => keys_held(old(self).synth).remove((0, k as int)),
                None => keys_held(old(self).synth),
            },
            old(self).tidy() ==> final(self).tidy(),
    {
        let same = match (key, self.held) {
            (None, None) => true,
            (Some(a), Some(b)) => a == b,
            _ => false,
        };
        let ghost (before, held) = (self.synth, self.held);
        proof {
            no_touch_turns(before);
        }
        if same {
            return;
        }
        let ghost first = touches(held, None);
        if let Some(k) = self.held {
            lift(&mut self.synth, 0, k as i32);
            proof {
                one_more_touch(before, Seq::empty(), before, Touch::Lift(k), self.synth);
                assert(first =~= Seq::empty().push(Touch::Lift(k)));
            }
        }
        let ghost between = self.synth;
        assert(touches_turn(before, first, between));
        if let Some(k) = key {
            strike(&mut self.synth, 0, k as i32, VELOCITY);
            proof {
                one_more_touch(before, first, between, Touch::Strike(k), self.synth);
                assert(touches(held, key) =~= first.push(Touch::Strike(k)));
            }
        } else {
            assert(touches(held, key) =~= first);
        }
        self.held = key;
    }
}

/// What holding `key` makes of a keyboard: the key is the one held, and the synthesizer has been
/// touched just as that takes.
pub open spec fn held_in_turn(before: LivePiano, key: Option<u8>, after: LivePiano) -> bool {
    &&& after.held == key
    &&& touches_turn(before.synth, touches(before.held, key), after.synth)
}

proof fn no_touch_turns(synth: rustysynth::Synthesizer)
    ensures
        touches_turn(synth, Seq::empty(), synth),
{
}

proof fn one_more_touch(
    before: rustysynth::Synthesizer,
    all: Seq<Touch>,
    between: rustysynth::Synthesizer,
    touch: Touch,
    after: rustysynth::Synthesizer,
)
    requires
        touches_turn(before, all, between),
        touch_turns(between, touch, after),
    ensures
        touches_turn(before, all.push(touch), after),
{
    let more = all.push(touch);
    assert(more.drop_last() =~= all);
    assert(touches_turn(before, more.drop_last(), between) && touch_turns(
        between,
        more.last(),
        after,
    ));
}

proof fn more_touches(
    before: rustysynth::Synthesizer,
    first: Seq<Touch>,
    between: rustysynth::Synthesizer,
    then: Seq<Touch>,
    after: rustysynth::Synthesizer,
)
    requires
        touches_turn(before, first, between),
        touches_turn(between, then, after),
    ensures
        touches_turn(before, first + then, after),
    decreases then.len(),
{
    if then.len() == 0 {
        assert(first + then =~= first);
    } else {
        let last = choose|last: rustysynth::Synthesizer|
            touches_turn(between, then.drop_last(), last) && #[trigger] touch_turns(
                last,
                then.last(),
                after,
            );
        more_touches(before, first, between, then.drop_last(), last);
        one_more_touch(before, first + then.drop_last(), last, then.last(), after);
        assert((first + then.drop_last()).push(then.last()) =~= first + then);
    }
}

proof fn switched_on_push(all: Seq<Touch>, touch: Touch)
    ensures
        switched_on(all.push(touch)) == match touch {
            Touch::Strike(k) => switched_on(all).insert(k),
            Touch::Lift(k) => switched_on(all).remove(k),
        },
{
    assert(all.push(touch).drop_last() =~= all);
}

/// The key that may be on.
pub open spec fn on(held: Option<u8>) -> Set<u8> {
    Set::new(|k: u8| held == Some(k))
}

/// All that is done when these keys are to be held one after the other, from none on.
pub open spec fn all_touches(keys: Seq<Option<u8>>) -> Seq<Touch>
    decreases keys.len(),
{
    if keys.len() == 0 {
        Seq::empty()
    } else {
        all_touches(keys.drop_last()) + touches(last_held(keys.drop_last()), keys.last())
    }
}

/// The key that is held after these were, one after the other, from none on.
pub open spec fn last_held(keys: Seq<Option<u8>>) -> Option<u8> {
    if keys.len() == 0 {
        None
    } else {
        keys.last()
    }
}

/// Law: the keys switched on and not yet switched off are exactly the one that is held. So there
/// is one at most, and none once none is held.
pub proof fn just_the_held_key_is_on(keys: Seq<Option<u8>>)
    ensures
        switched_on(all_touches(keys)) == on(last_held(keys)),
    decreases keys.len(),
{
    if keys.len() == 0 {
        assert(switched_on(all_touches(keys)) =~= on(None));
    } else {
        let init = keys.drop_last();
        just_the_held_key_is_on(init);
        let (all, held, key) = (all_touches(init), last_held(init), keys.last());
        if key == held {
            assert(all + touches(held, key) =~= all);
        } else {
            let lifted = match held {
                Some(k) => all.push(Touch::Lift(k)),
                None => all,
            };
            if let Some(k) = held {
                switched_on_push(all, Touch::Lift(k));
            }
            assert(switched_on(lifted) =~= Set::empty());
            match key {
                Some(k) => {
                    switched_on_push(lifted, Touch::Strike(k));
                    assert(all + touches(held, key) =~= lifted.push(Touch::Strike(k)));
                },
                None => {
                    assert(all + touches(held, key) =~= lifted);
                },
            }
        }
        assert(switched_on(all_touches(keys)) =~= on(key));
    }
}

/// Law: of a new keyboard that was told to hold `keys` one after the other, the synthesizer has
/// been touched just as that takes, so that exactly the held key is switched on.
pub proof fn dragging_leaves_one_key_on(pianos: Seq<LivePiano>, keys: Seq<Option<u8>>)
    requires
        pianos.len() == keys.len() + 1,
        pianos[0].held is None,
        forall|i: int|
            0 <= i < keys.len() ==> held_in_turn(#[trigger] pianos[i], keys[i], pianos[i + 1]),
    ensures
        pianos.last().held == last_held(keys),
        touches_turn(pianos[0].synth, all_touches(keys), pianos.last().synth),
        switched_on(all_touches(keys)) == on(pianos.last().held),
    decreases keys.len(),
{
    just_the_held_key_is_on(keys);
    if keys.len() > 0 {
        let n = keys.len() as int;
        let (p, k) = (pianos.drop_last(), keys.drop_last());
        assert forall|i: int| 0 <= i < k.len() implies held_in_turn(
            #[trigger] p[i],
            k[i],
            p[i + 1],
        ) by {
            assert(held_in_turn(pianos[i], keys[i], pianos[i + 1]));
        }
        dragging_leaves_one_key_on(p, k);
        assert(held_in_turn(pianos[n - 1], keys[n - 1], pianos[n]));
        assert(p.last() == pianos[n - 1]);
        more_touches(
            pianos[0].synth,
            all_touches(k),
            pianos[n - 1].synth,
            touches(last_held(k), keys[n - 1]),
            pianos[n].synth,
        );
    }
}

/// Law: to hold a key that is held already touches nothing.
pub proof fn holding_on_changes_nothing(before: LivePiano, after: LivePiano)
    requires
        held_in_turn(before, before.held, after),
    ensures
        after == before,
{
}

/// Law: no note is left hanging. Wherever the mouse has been, once it plays no key, none is held.
pub proof fn no_note_hangs(piano: LivePiano)
    requires
        piano.tidy(),
        piano.held is None,
    ensures
        keys_held(piano.synth) == Set::<(int, int)>::empty(),
{
}

/// Law: when another key is to be held, the one before is lifted first and then the other struck;
/// nothing is lifted that was not held, nothing struck that is not to be.
pub proof fn keys_are_lifted_before_others_are_struck(held: Option<u8>, key: Option<u8>)
    requires
        key != held,
    ensures
        touches(held, key).len() == (if held is Some {
            1int
        } else {
            0
        }) + (if key is Some {
            1int
        } else {
            0
        }),
        held matches Some(k) ==> touches(held, key)[0] == Touch::Lift(k),
        key matches Some(k) ==> touches(held, key).last() == Touch::Strike(k),
{
}

/// Law: touches are made on the first channel, strikes with velocity 96.
pub proof fn touches_are_made_on_the_first_channel(
    before: rustysynth::Synthesizer,
    after: rustysynth::Synthesizer,
    k: u8,
)
    ensures
        touch_turns(before, Touch::Strike(k), after) <==> strike_turns(
            before,
            0,
            k as int,
            96,
            after,
        ),
        touch_turns(before, Touch::Lift(k), after) <==> lift_turns(before, 0, k as int, after),
{
}

/// Law: touches come one after the other: several turn a synthesizer into another exactly where all
/// but the last turn it into one that the last turns into the other.
pub proof fn touches_come_one_after_the_other(
    before: rustysynth::Synthesizer,
    all: Seq<Touch>,
    touch: Touch,
    after: rustysynth::Synthesizer,
)
    ensures
        touches_turn(before, Seq::empty(), after) <==> after == before,
        touches_turn(before, all.push(touch), after) <==> exists|between: rustysynth::Synthesizer|
            touches_turn(before, all, between) && #[trigger] touch_turns(between, touch, after),
{
    let more = all.push(touch);
    assert(more.drop_last() =~= all);
    if touches_turn(before, more, after) {
        let between = choose|between: rustysynth::Synthesizer|
            touches_turn(before, more.drop_last(), between) && #[trigger] touch_turns(
                between,
                more.last(),
                after,
            );
        assert(touches_turn(before, all, between) && touch_turns(between, touch, after));
    }
    if exists|between: rustysynth::Synthesizer|
        touches_turn(before, all, between) && #[trigger] touch_turns(between, touch, after) {
        let between = choose|between: rustysynth::Synthesizer|
            touches_turn(before, all, between) && #[trigger] touch_turns(between, touch, after);
        one_more_touch(before, all, between, touch, after);
    }
}

/// Law: a rate as a signed number is the same modulo 2^32, so only rates that can be played come
/// out between the bounds of what can.
pub proof fn signed_rates_wrap_around(rate: u32)
    ensures
        -0x8000_0000 <= signed(rate) <= 0x7fff_ffff,
        (signed(rate) - rate) % 0x1_0000_0000 == 0,
        playable(rate) <==> 16_000 <= signed(rate) <= 192_000,
{
}

} // verus!
