use dfutil::lvm_alias;

#[test]
fn lvm_alias_none() {
    let s = lvm_alias("/dev/mapper/crypto");
    assert_eq!(s, None);
}

#[test]
fn lvm_alias_simple() {
    let s = lvm_alias("/dev/mapper/crypto-foo");
    assert_eq!(s, Some("/dev/crypto/foo".to_string()));
}

#[test]
fn lvm_alias_two_dashes() {
    let s = lvm_alias("/dev/mapper/crypto--foo");
    assert_eq!(s, None);
}

#[test]
fn lvm_alias_three_dashes() {
    let s = lvm_alias("/dev/mapper/crypto---foo");
    assert_eq!(s, Some("/dev/crypto-/foo".to_string()));
}

#[test]
fn lvm_alias_four_dashes() {
    let s = lvm_alias("/dev/mapper/crypto----foo");
    assert_eq!(s, None);
}

#[test]
fn lvm_alias_five_dashes() {
    let s = lvm_alias("/dev/mapper/crypto-----foo");
    assert_eq!(s, Some("/dev/crypto--/foo".to_string()));
}

#[test]
fn lvm_alias_other_prefix() {
    let s = lvm_alias("/dev/sda1");
    assert_eq!(s, None);
}

#[test]
fn lvm_alias_escapes_in_both_parts() {
    let s = lvm_alias("/dev/mapper/vg--data-lv--root");
    assert_eq!(s, Some("/dev/vg-data/lv-root".to_string()));
}

#[test]
fn lvm_alias_later_dashes_stay_in_volume() {
    let s = lvm_alias("/dev/mapper/vg-a-b");
    assert_eq!(s, Some("/dev/vg/a-b".to_string()));
}

#[test]
fn lvm_alias_trailing_separator() {
    let s = lvm_alias("/dev/mapper/vg-");
    assert_eq!(s, Some("/dev/vg/".to_string()));
}

#[test]
fn lvm_alias_empty_name() {
    let s = lvm_alias("/dev/mapper/");
    assert_eq!(s, None);
}
