use yserver::kms::render_node::{
    device_numbers, render_node_path_via_dev_walk, render_node_path_via_sysfs, sysfs_device_path,
    sysfs_drm_path, NodeCandidate,
};

fn names(list: &[&str]) -> Vec<String> {
    list.iter().map(|s| (*s).to_string()).collect()
}

fn node(name: &str, parent: Option<&str>) -> NodeCandidate {
    NodeCandidate { name: name.to_string(), parent: parent.map(str::to_string) }
}

#[test]
fn libc_major_minor_round_trip() {
    let dev = libc::makedev(226, 128);
    assert_eq!(device_numbers(dev).0, 226);
    assert_eq!(device_numbers(dev).1, 128);
}

#[test]
fn large_device_numbers_round_trip() {
    for (major, minor) in [(0u32, 0u32), (255, 255), (256, 256), (0xfff, 0xf_ffff), (u32::MAX, 1),
        (1, u32::MAX), (u32::MAX, u32::MAX)]
    {
        assert_eq!(device_numbers(libc::makedev(major, minor)), (major, minor));
    }
}

#[test]
fn paths_in_sysfs() {
    assert_eq!(sysfs_device_path((226, 0)), "/sys/dev/char/226:0/device");
    assert_eq!(sysfs_drm_path((226, 129)), "/sys/dev/char/226:129/device/drm");
}

#[test]
fn sysfs_lists_the_render_node() {
    assert_eq!(
        render_node_path_via_sysfs(&names(&["card0", "renderD129", "renderD128"])),
        Some("/dev/dri/renderD129".to_string())
    );
    assert_eq!(render_node_path_via_sysfs(&names(&["card0", "xrenderD1", "render"])), None);
    assert_eq!(render_node_path_via_sysfs(&names(&[])), None);
}

#[test]
fn walk_prefers_the_same_parent() {
    let nodes = vec![
        node("renderD130", Some("/devices/pci/b")),
        node("renderD128", Some("/devices/pci/a")),
        node("renderD129", Some("/devices/pci/b")),
        node("card0", Some("/devices/pci/b")),
    ];
    assert_eq!(
        render_node_path_via_dev_walk(&nodes, &Some("/devices/pci/b".to_string())),
        Some("/dev/dri/renderD129".to_string())
    );
}

#[test]
fn walk_falls_back_to_the_first() {
    let nodes = vec![node("card0", None), node("renderD129", Some("/x")), node("renderD128", None)];
    let first = Some("/dev/dri/renderD128".to_string());
    assert_eq!(render_node_path_via_dev_walk(&nodes, &Some("/y".to_string())), first);
    assert_eq!(render_node_path_via_dev_walk(&nodes, &None), first);
    let none = vec![node("card0", Some("/y"))];
    assert_eq!(render_node_path_via_dev_walk(&none, &Some("/y".to_string())), None);
}
