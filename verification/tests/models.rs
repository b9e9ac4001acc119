use mdev::models::{project_type_label, AppInfo, Device, DevicePlatform, DeviceType, NodePm, ProjectType, PyFw};

#[test]
fn device_platform_label_android() {
    assert_eq!(DevicePlatform::Android.label(), "Android");
}

#[test]
fn device_platform_label_ios() {
    assert_eq!(DevicePlatform::Ios.label(), "iOS");
}

#[test]
fn device_platform_from_device_id_ios_uuid() {
    let uuid = "12345678-1234-1234-1234-123456789012";
    assert_eq!(DevicePlatform::from_device_id(uuid), DevicePlatform::Ios);
}

#[test]
fn device_platform_from_device_id_android() {
    assert_eq!(DevicePlatform::from_device_id("emulator-5554"), DevicePlatform::Android);
}

#[test]
fn label_android_exact_string() {
    assert_eq!(DevicePlatform::Android.label(), "Android");
}

#[test]
fn label_ios_exact_string() {
    assert_eq!(DevicePlatform::Ios.label(), "iOS");
}

#[test]
fn from_device_id_empty_string() {
    assert_eq!(DevicePlatform::from_device_id(""), DevicePlatform::Android);
}

#[test]
fn from_device_id_36_chars_wrong_dash_count() {
    let id = "12345678-1234-1234-1234X123456789012";
    assert_eq!(id.len(), 36);
    assert_eq!(id.matches('-').count(), 3);
    assert_eq!(DevicePlatform::from_device_id(id), DevicePlatform::Android);
}

#[test]
fn from_device_id_short_uuid_ish() {
    let id = "abc-def-ghi-jkl-m";
    assert!(id.len() < 36);
    assert_eq!(DevicePlatform::from_device_id(id), DevicePlatform::Android);
}

#[test]
fn from_device_id_counts_bytes_not_chars() {
    // 36 characters but more than 36 bytes: not an iOS id.
    let id = "é2345678-1234-1234-1234-123456789012";
    assert_eq!(id.chars().count(), 36);
    assert_eq!(DevicePlatform::from_device_id(id), DevicePlatform::Android);
}

#[test]
fn project_type_names_and_labels() {
    assert_eq!(ProjectType::Flutter.name(), "flutter");
    assert_eq!(ProjectType::Node { manager: NodePm::Pnpm }.name(), "node");
    assert!(ProjectType::Ios.is_mobile());
    assert!(!ProjectType::Rust.is_mobile());
    assert!(ProjectType::Ios.needs_macos());
    assert!(!ProjectType::Android.needs_macos());
    assert_eq!(project_type_label(&ProjectType::Python { framework: Some(PyFw::Django) }), "Python (Django)");
    let info = AppInfo::new("app".into(), ProjectType::Flutter, Some("a.b".into()), None);
    assert_eq!(info.flutter_name, "app");
    assert_eq!(info.android_package_id.as_deref(), Some("a.b"));
}

#[test]
fn device_description_names_variants() {
    let d = Device::new("emulator-5554".to_string(), "Pixel 7".to_string(), DevicePlatform::Android, DeviceType::Emulator);
    assert_eq!(d.description(), "Device(id: emulator-5554, name: Pixel 7, platform: Android, type: Emulator)");
}

#[test]
fn app_info_description_writes_ids_as_debug() {
    let ids = [Some("com.example.app".to_string()), Some("we\"ird\\id\n\t\u{1}\u{7f}".to_string()), None];
    for android in ids.iter() {
        for ios in ids.iter() {
            let info = AppInfo::new("app".to_string(), ProjectType::Flutter, android.clone(), ios.clone());
            assert_eq!(info.description(), format!("AppInfo(type: Flutter, android: {:?}, ios: {:?}, name: app)", android, ios));
        }
    }
}
