use prototty::audio::NativeSound;

static SAMPLE: [u8; 4] = [82, 73, 70, 70];

#[test]
fn sound_keeps_its_bytes() {
    let sound = NativeSound::new(&SAMPLE);
    assert_eq!(sound.bytes(), &SAMPLE[..]);
    let copy = sound.clone();
    assert_eq!(copy.bytes(), &SAMPLE[..]);
}

#[test]
fn empty_sound() {
    let sound = NativeSound::new(&[]);
    assert!(sound.bytes().is_empty());
}
