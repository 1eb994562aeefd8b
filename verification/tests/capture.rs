//! Audio devices.

use obcast::capture::{
    choose_device, choose_host, choose_output_device, pick_stereo, CaptureKeeper, DeviceChoice,
    Target,
};

fn names(list: &[&str]) -> Vec<String> {
    list.iter().map(|n| n.to_string()).collect()
}

fn target() -> Target {
    Target {
        host: "ALSA".into(),
        device: "mixer".into(),
    }
}

#[test]
fn hosts_are_found_in_any_case() {
    let hosts = names(&["ALSA", "JACK", "jack"]);
    assert_eq!(choose_host(&hosts, "jAcK"), Some(1));
    assert_eq!(choose_host(&hosts, ""), None);
    assert_eq!(choose_host(&hosts, "WASAPI"), None);
    assert_eq!(choose_host(&hosts, "ALSA "), None);
    assert_eq!(choose_host(&names(&["[", "é"]), "{"), None);
    assert_eq!(choose_host(&names(&["É"]), "é"), None);
}

#[test]
fn input_devices_are_found_by_their_exact_name() {
    let devices = names(&["mic", "Mixer", "mixer", "mixer"]);
    assert_eq!(choose_device(&devices, "mixer"), DeviceChoice::Listed(2));
    assert_eq!(choose_device(&devices, ""), DeviceChoice::Default);
    assert_eq!(choose_device(&devices, "default"), DeviceChoice::Default);
    assert_eq!(choose_device(&devices, "gone"), DeviceChoice::Missing);
}

#[test]
fn an_output_device_may_be_called_default() {
    let devices = names(&["hdmi", "default"]);
    assert_eq!(choose_output_device(&devices, ""), DeviceChoice::Default);
    assert_eq!(
        choose_output_device(&devices, "default"),
        DeviceChoice::Listed(1)
    );
    assert_eq!(choose_output_device(&devices, "x"), DeviceChoice::Missing);
}

#[test]
fn a_device_that_does_not_open_is_tried_again() {
    let mut keeper = CaptureKeeper::new();
    assert_eq!(keeper.tick(false).retry, None);
    keeper.ask(target());
    keeper.tried(false);
    assert_eq!(keeper.tick(false).retry, Some(target()));
    keeper.tried(false);
    assert_eq!(keeper.tick(false).retry, Some(target()));
    keeper.tried(true);
    let tick = keeper.tick(true);
    assert!(!tick.lost);
    assert_eq!(tick.retry, None);
}

#[test]
fn a_lost_device_is_tried_again() {
    let mut keeper = CaptureKeeper::new();
    keeper.ask(target());
    keeper.tried(true);
    let tick = keeper.tick(false);
    assert!(tick.lost);
    assert_eq!(tick.retry, Some(target()));
    assert!(!keeper.tick(false).lost);
}

#[test]
fn a_closed_device_is_left_alone() {
    let mut keeper = CaptureKeeper::new();
    keeper.ask(target());
    keeper.tried(false);
    keeper.close();
    assert_eq!(keeper.tick(false).retry, None);
}

#[test]
fn two_channels_are_picked_out_of_many() {
    let raw: Vec<u32> = (0..11).collect();
    assert_eq!(pick_stereo(&raw, 4, 1, 3, false), vec![1, 3, 5, 7]);
    assert_eq!(pick_stereo(&raw, 4, 2, 3, true), vec![2, 2, 6, 6]);
    assert_eq!(pick_stereo(&raw, 4, 0, 99, false), vec![0, 3, 4, 7]);
    assert_eq!(pick_stereo(&raw, 1, 0, 1, false).len(), 22);
    assert!(pick_stereo(&raw, 12, 0, 1, false).is_empty());
}
