use ash::vk;
use vkpace::{amd_anti_lag, entrypoints, features, instance, pnext, queue};
use vkpace::config::{LayerConfig, SpoofProfile};
use vkpace::device::{plan_device, DeviceContext, PresentWorker};
use vkpace::dispatch::{
    get_device_proc_addr, get_instance_proc_addr, load_table, pick_variant, DeviceTable,
    InstanceTable, Lookup, DEVICE_ENTRIES, INSTANCE_ENTRIES,
};
use vkpace::extensions::{
    answer_merged, answer_own, anti_lag_feature, apply_nvidia_spoof_v1, enumeration_for,
    ext_name_eq, make_ext_prop, plan_extensions, present_mode_count, watched_extension,
    DeviceIdentity, Enumeration, ListAnswer, PACED_PRESENT_MODES,
};
use vkpace::features::{patch_features, relink_into, ApiCaps, Switch};
use vkpace::instance::{AppInfo, InstanceContext};
use vkpace::physical_device::{
    ext_name, list_available_extensions, PhysicalDeviceContext, OPTIONAL_EXTENSIONS,
    REQUIRED_EXTENSIONS,
};
use vkpace::pnext::{find, find_device_link, find_instance_link, LayerLink};
use vkpace::queue::{family_properties, QueueContext, QueueFamily};
use vkpace::registry::Registry;
use vkpace::toml::AppOverride;
use vkpace::vk as n;
use vkpace::vk_layer::{creation_link, negotiate, VkLayerFunction};

fn bytes(names: &[&str]) -> Vec<Vec<u8>> {
    names.iter().map(|n| n.as_bytes().to_vec()).collect()
}

#[test]
fn numbers_are_those_of_the_interface() {
    assert_eq!(n::SUCCESS, vk::Result::SUCCESS.as_raw());
    assert_eq!(n::TIMEOUT, vk::Result::TIMEOUT.as_raw());
    assert_eq!(n::INCOMPLETE, vk::Result::INCOMPLETE.as_raw());
    assert_eq!(
        n::ERROR_INITIALIZATION_FAILED,
        vk::Result::ERROR_INITIALIZATION_FAILED.as_raw()
    );
    assert_eq!(
        n::ERROR_EXTENSION_NOT_PRESENT,
        vk::Result::ERROR_EXTENSION_NOT_PRESENT.as_raw()
    );
    assert_eq!(n::STAGE_TOP_OF_PIPE, vk::PipelineStageFlags2::TOP_OF_PIPE.as_raw());
    assert_eq!(n::STAGE_BOTTOM_OF_PIPE, vk::PipelineStageFlags2::BOTTOM_OF_PIPE.as_raw());
    assert_eq!(
        features::VULKAN_1_2_FEATURES,
        vk::StructureType::PHYSICAL_DEVICE_VULKAN_1_2_FEATURES.as_raw()
    );
    assert_eq!(
        features::VULKAN_1_3_FEATURES,
        vk::StructureType::PHYSICAL_DEVICE_VULKAN_1_3_FEATURES.as_raw()
    );
    assert_eq!(
        features::SYNCHRONIZATION_2_FEATURES,
        vk::StructureType::PHYSICAL_DEVICE_SYNCHRONIZATION_2_FEATURES.as_raw()
    );
    assert_eq!(
        features::HOST_QUERY_RESET_FEATURES,
        vk::StructureType::PHYSICAL_DEVICE_HOST_QUERY_RESET_FEATURES.as_raw()
    );
    assert_eq!(
        features::PRESENT_ID_FEATURES,
        vk::StructureType::PHYSICAL_DEVICE_PRESENT_ID_FEATURES_KHR.as_raw()
    );
    assert_eq!(
        features::PRESENT_WAIT_FEATURES,
        vk::StructureType::PHYSICAL_DEVICE_PRESENT_WAIT_FEATURES_KHR.as_raw()
    );
    assert_eq!(
        pnext::LOADER_INSTANCE_CREATE_INFO,
        vk::StructureType::LOADER_INSTANCE_CREATE_INFO.as_raw()
    );
    assert_eq!(
        pnext::LOADER_DEVICE_CREATE_INFO,
        vk::StructureType::LOADER_DEVICE_CREATE_INFO.as_raw()
    );
    assert_eq!(instance::API_VERSION_1_2, vk::API_VERSION_1_2);
    assert_eq!(instance::API_VERSION_1_3, vk::API_VERSION_1_3);
    assert_eq!(queue::QUEUE_GRAPHICS, vk::QueueFlags::GRAPHICS.as_raw());
    assert_eq!(
        amd_anti_lag::STRUCTURE_TYPE_PHYSICAL_DEVICE_ANTI_LAG_FEATURES_AMD,
        1000476000
    );
    assert_eq!(
        entrypoints::swapchain::PRESENT_MODE_FIFO_LATEST_READY,
        1000361000
    );
    let modes = [
        vk::PresentModeKHR::IMMEDIATE,
        vk::PresentModeKHR::MAILBOX,
        vk::PresentModeKHR::FIFO,
    ];
    assert_eq!(PACED_PRESENT_MODES.to_vec(), modes.map(|m| m.as_raw()).to_vec());
    assert_eq!(
        REQUIRED_EXTENSIONS.map(|n| n.as_bytes().to_vec()),
        [
            vk::KHR_SYNCHRONIZATION2_NAME,
            vk::KHR_CALIBRATED_TIMESTAMPS_NAME,
            vk::EXT_HOST_QUERY_RESET_NAME,
        ]
        .map(|n| n.to_bytes().to_vec())
    );
    assert_eq!(
        OPTIONAL_EXTENSIONS.map(|n| n.as_bytes().to_vec()),
        [
            vk::KHR_PRESENT_ID_NAME,
            vk::KHR_PRESENT_WAIT_NAME,
            vk::GOOGLE_DISPLAY_TIMING_NAME,
        ]
        .map(|n| n.to_bytes().to_vec())
    );
    assert_eq!(
        watched_extension(true),
        (
            vk::NV_LOW_LATENCY2_NAME.to_str().unwrap(),
            vk::NV_LOW_LATENCY2_SPEC_VERSION
        )
    );
    assert_eq!(watched_extension(false), ("VK_AMD_anti_lag", 1));
}

#[test]
fn chains_are_searched_from_the_head() {
    let instance_info = vk::StructureType::INSTANCE_CREATE_INFO.as_raw();
    let app_info = vk::StructureType::APPLICATION_INFO.as_raw();
    assert_eq!(find(&[instance_info, app_info, app_info], app_info), Some(1));
    assert_eq!(find(&[instance_info], app_info), None);
    assert_eq!(find(&[], app_info), None);
}

#[test]
fn loader_links_need_the_right_function() {
    let link = |s_type, function| LayerLink {
        s_type,
        function: VkLayerFunction(function),
    };
    let chain = [link(47, 1), link(48, 0), link(47, 0)];
    assert_eq!(find_instance_link(&chain), Some(2));
    assert_eq!(find_device_link(&chain), Some(1));
    assert_eq!(find_device_link(&chain[2..]), None);
    assert_eq!(creation_link(true, Some(2), true, true), Ok(2));
    assert_eq!(creation_link(false, Some(2), true, true), Err(-3));
    assert_eq!(creation_link(true, None, true, true), Err(-3));
    assert_eq!(creation_link(true, Some(2), false, true), Err(-3));
    assert_eq!(creation_link(true, Some(2), true, false), Err(-3));
}

#[test]
fn versions_meet_at_the_lower() {
    // A loader that supports version 5.
    let r = negotiate(Some(5)).unwrap();
    assert_eq!(r.version, 2);
    assert!(r.gives_instance_lookup);
    assert!(r.gives_device_lookup);
    assert!(!r.gives_physical_device_lookup);
    assert_eq!(negotiate(Some(1)).unwrap().version, 1);
    assert_eq!(negotiate(None), Err(-3));
}

#[test]
fn global_entry_points_resolve_without_an_instance() {
    for name in ["vkCreateInstance", "vkGetInstanceProcAddr", "vkGetDeviceProcAddr"] {
        assert!(matches!(
            get_instance_proc_addr(Some(name.as_bytes()), false),
            Lookup::Own(_)
        ));
    }
    let unknown = b"vkObviouslyNotARealFunction";
    assert_eq!(get_instance_proc_addr(Some(unknown), false), Lookup::Nothing);
    assert_eq!(get_instance_proc_addr(Some(unknown), true), Lookup::Forward);
    assert_eq!(get_instance_proc_addr(None, true), Lookup::Nothing);
    assert_eq!(get_device_proc_addr(Some(b"vkQueueSubmit"), true, false), Lookup::Own(4));
    assert_eq!(get_device_proc_addr(Some(b"vkQueueSubmit"), false, false), Lookup::Nothing);
    assert_eq!(get_device_proc_addr(Some(unknown), true, true), Lookup::Forward);
    assert_eq!(get_device_proc_addr(None, true, true), Lookup::Nothing);
}

#[test]
fn tables_need_their_required_entries() {
    let n = INSTANCE_ENTRIES.len();
    let mut first: Vec<Option<u64>> = (0..n as u64).map(|i| Some(100 + i)).collect();
    let mut second: Vec<Option<u64>> = vec![None; n];
    let t = InstanceTable::load(&first, &second).unwrap();
    assert_eq!(t.address("vkDestroyInstance"), Some(100));
    assert_eq!(t.address("vkNoSuchThing"), None);
    // An optional one may be missing, or come under its second name.
    first[5] = None;
    assert_eq!(
        InstanceTable::load(&first, &second)
            .unwrap()
            .address("vkGetPhysicalDeviceProperties2"),
        None
    );
    second[5] = Some(7);
    second[9] = Some(8);
    first[9] = None;
    let t = InstanceTable::load(&first, &second).unwrap();
    assert_eq!(t.address("vkGetPhysicalDeviceProperties2"), Some(7));
    // One without a second name does not take it.
    assert_eq!(t.address("vkGetPhysicalDeviceSurfaceCapabilities2KHR"), None);
    first[1] = None;
    assert_eq!(InstanceTable::load(&first, &second).unwrap_err(), 1);

    let m = DEVICE_ENTRIES.len();
    let all: Vec<Option<u64>> = vec![Some(1); m];
    let none: Vec<Option<u64>> = vec![None; m];
    assert_eq!(
        DeviceTable::load(&all, &none).unwrap().address("vkWaitForPresentKHR"),
        Some(1)
    );
    assert_eq!(DeviceTable::load(&none, &all).unwrap_err(), 0);
    assert!(load_table(&[], &[], &[]).unwrap().is_empty());
    assert_eq!(pick_variant(Some(1), None, true), None);
    assert_eq!(pick_variant(Some(1), None, false), Some(1));
}

#[test]
fn application_gets_its_configuration() {
    let base = LayerConfig {
        expose_reflex: false,
        spoof_nvidia: false,
        force_decoupled: false,
        spoof_profile: SpoofProfile { device_id: 1, device_name: "x" },
        fps_cap: 10,
        per_app: vec![AppOverride {
            app_name: "game".into(),
            expose_reflex: Some(true),
            spoof_nvidia: None,
            force_decoupled: None,
            fps_cap: None,
            spoof_model: None,
        }],
    };
    let app = AppInfo { name: Some("game"), api_version: vk::API_VERSION_1_2 };
    let ctx = InstanceContext::new(Some(app), &base);
    assert!(ctx.config.expose_reflex);
    assert_eq!(ctx.config.fps_cap, 10);
    assert!(!ctx.is_simulation_decoupled);
    assert!(ctx.supports_1_2());
    assert!(!ctx.supports_1_3());
    let marvel = AppInfo {
        name: Some("Marvel-Win64-Shipping.exe"),
        api_version: vk::API_VERSION_1_3,
    };
    let ctx = InstanceContext::new(Some(marvel), &base);
    assert!(ctx.is_simulation_decoupled);
    assert!(ctx.supports_1_3());
    let ctx = InstanceContext::new(None, &base);
    assert_eq!(ctx.api_version, 0);
    assert!(!ctx.supports_1_2());
}

#[test]
fn only_graphics_queues_with_timestamps_are_wrapped() {
    let queue = |enabled, reflex, flags, bits| QueueContext {
        layer_enabled: enabled,
        expose_reflex: reflex,
        family: QueueFamily { queue_flags: flags, timestamp_valid_bits: bits },
    };
    assert!(queue(true, true, 0x7, 64).should_inject_timestamps());
    assert!(!queue(true, true, 0x6, 64).should_inject_timestamps());
    assert!(!queue(true, true, 0x7, 0).should_inject_timestamps());
    assert!(!queue(false, true, 0x7, 64).should_inject_timestamps());
    assert!(queue(true, true, 0x1, 64).should_inject_for_submit(false));
    assert!(!queue(true, false, 0x1, 64).should_inject_for_submit(false));
    assert!(queue(true, false, 0x1, 64).should_inject_for_submit(true));
    let families = [QueueFamily { queue_flags: 1, timestamp_valid_bits: 36 }];
    assert_eq!(family_properties(&families, 0).unwrap().timestamp_valid_bits, 36);
    assert!(family_properties(&families, 1).is_none());
}

#[test]
fn the_stricter_of_cap_and_display_counts() {
    let mut d = DeviceContext::new(60, true, 3);
    assert_eq!(d.effective_min_delay_ns(), 16_666_666);
    assert!(d.needs_vrr_target(true));
    assert!(!d.needs_vrr_target(false));
    d.ensure_vrr_target(-1, 10_000_000);
    d.ensure_vrr_target(0, 0);
    assert_eq!(d.vrr_target_delay_ns, 0);
    // 144 Hz less 3 Hz.
    d.ensure_vrr_target(0, 6_944_444);
    assert_eq!(d.vrr_target_delay_ns, 1_000_000_000 / 141);
    assert_eq!(d.effective_min_delay_ns(), 16_666_666);
    assert!(!d.needs_vrr_target(true));
    d.ensure_vrr_target(0, 20_000_000);
    assert_eq!(d.vrr_target_delay_ns, 1_000_000_000 / 141);
    // Never below one frame a second.
    let mut slow = DeviceContext::new(0, true, 500);
    slow.ensure_vrr_target(0, 16_666_666);
    assert_eq!(slow.effective_min_delay_ns(), 1_000_000_000);
    let mut off = DeviceContext::new(0, false, 0);
    off.ensure_vrr_target(0, 16_666_666);
    assert_eq!(off.effective_min_delay_ns(), 0);
}

#[test]
fn waiting_comes_before_polling() {
    assert_eq!(plan_device(true, true, true, true, true).worker, PresentWorker::Wait);
    assert_eq!(plan_device(true, true, true, false, true).worker, PresentWorker::Poll);
    assert_eq!(plan_device(true, true, true, false, false).worker, PresentWorker::Absent);
    assert_eq!(plan_device(true, false, true, true, true).worker, PresentWorker::Absent);
    let off = plan_device(false, true, true, true, true);
    assert!(!off.has_clock && !off.has_strategy);
    assert!(!plan_device(true, true, false, true, true).has_clock);
}

#[test]
fn features_prefer_the_links_that_are_there() {
    let caps = ApiCaps {
        v_1_2: true,
        v_1_3: true,
        enable_present_id: true,
        enable_present_wait: false,
    };
    let p = patch_features(&[53, 51], caps);
    assert_eq!(p.sync2, Switch::InLink(0));
    assert_eq!(p.hqr, Switch::InLink(1));
    assert_eq!(p.present_id, Switch::Appended);
    assert_eq!(p.present_wait, Switch::Unset);
    assert_eq!(relink_into(&p), vec![1_000_294_001]);
    // A structure of a version that the instance does not know stays.
    let old = ApiCaps { v_1_2: false, v_1_3: false, ..caps };
    let p = patch_features(&[53, 51, 1_000_314_007], old);
    assert_eq!(p.sync2, Switch::InLink(2));
    assert_eq!(p.hqr, Switch::Appended);
    let all = ApiCaps { enable_present_wait: true, ..caps };
    let p = patch_features(&[], all);
    assert_eq!(
        relink_into(&p),
        vec![1_000_314_007, 1_000_261_000, 1_000_294_001, 1_000_248_000]
    );
}

#[test]
fn device_extensions_are_found_out() {
    let mut raw = bytes(&[
        "VK_KHR_synchronization2",
        "VK_KHR_calibrated_timestamps",
        "VK_EXT_host_query_reset",
        "VK_GOOGLE_display_timing",
        "VK_KHR_present_id",
    ]);
    for r in raw.iter_mut() {
        r.resize(256, 0);
    }
    let available = list_available_extensions(true, &raw);
    assert_eq!(available[0], b"VK_KHR_synchronization2".to_vec());
    let ctx = PhysicalDeviceContext::new(&available);
    assert!(ctx.supports_required_extensions);
    assert_eq!(ctx.supported_optionals, vec![0, 2]);
    let less = PhysicalDeviceContext::new(&available[1..].to_vec());
    assert!(!less.supports_required_extensions);
    assert!(list_available_extensions(false, &raw).is_empty());
    assert_eq!(ext_name(b"abc\0def"), b"abc");
    assert_eq!(ext_name(b"abc"), b"abc");
    assert_eq!(ext_name(b"\0"), b"");
}

#[test]
fn new_devices_enable_what_the_layer_needs() {
    let enabled = bytes(&["VK_KHR_swapchain", "VK_NV_low_latency2", "VK_KHR_present_id"]);
    let d = plan_extensions(&enabled, true, true, &vec![0, 1]).unwrap();
    assert!(d.layer_enabled);
    assert!(d.enable_present_id);
    assert!(d.enable_present_wait);
    assert_eq!(
        d.names,
        bytes(&[
            "VK_KHR_swapchain",
            "VK_NV_low_latency2",
            "VK_KHR_present_id",
            "VK_KHR_synchronization2",
            "VK_KHR_calibrated_timestamps",
            "VK_EXT_host_query_reset",
            "VK_KHR_present_wait",
        ])
    );
    assert_eq!(plan_extensions(&enabled, true, false, &vec![]).unwrap_err(), -3);
    // The layer shows the other extension, so this one does not turn it on.
    let d = plan_extensions(&enabled, false, false, &vec![0]).unwrap();
    assert!(!d.layer_enabled && !d.enable_present_id);
    assert_eq!(d.names, enabled);
}

#[test]
fn own_extension_is_listed_once() {
    let raw = bytes(&["VK_KHR_swapchain", "VK_KHR_surface"]);
    assert_eq!(
        answer_merged(&raw, true, None),
        ListAnswer { copied: 0, own: false, count: Some(3), result: 0 }
    );
    assert_eq!(
        answer_merged(&raw, true, Some(3)),
        ListAnswer { copied: 2, own: true, count: Some(3), result: 0 }
    );
    assert_eq!(
        answer_merged(&raw, true, Some(2)),
        ListAnswer { copied: 2, own: false, count: Some(2), result: 5 }
    );
    let has = bytes(&["VK_NV_low_latency2"]);
    assert_eq!(
        answer_merged(&has, true, Some(9)),
        ListAnswer { copied: 1, own: false, count: Some(1), result: 0 }
    );
    assert_eq!(answer_own(None).count, Some(1));
    assert_eq!(answer_own(Some(0)).result, 5);
    assert!(answer_own(Some(4)).own);
    assert_eq!(enumeration_for(None), Enumeration::Merge);
    assert_eq!(
        enumeration_for(Some(b"VK_LAYER_VKPACE_reduce_latency")),
        Enumeration::Own
    );
    assert_eq!(enumeration_for(Some(b"VK_LAYER_other")), Enumeration::PassThrough);
}

#[test]
fn entries_are_padded_with_zeros() {
    let p = make_ext_prop("VK_AMD_anti_lag", 1);
    assert_eq!(p.extension_name.len(), 256);
    assert_eq!(p.spec_version, 1);
    assert!(ext_name_eq(&p.extension_name, "VK_AMD_anti_lag"));
    assert!(!ext_name_eq(&p.extension_name, "VK_AMD_anti"));
    assert!(p.extension_name[15..].iter().all(|b| *b == 0));
    let long = make_ext_prop(&"x".repeat(300), 2);
    assert_eq!(ext_name(&long.extension_name).len(), 255);
}

#[test]
fn spoofed_device_has_the_name_of_its_profile() {
    let mut props = DeviceIdentity {
        vendor_id: 0x1002,
        device_id: 1,
        device_name: vec![b'z'; 256],
    };
    let profile = SpoofProfile { device_id: 0x2684, device_name: "NVIDIA GeForce RTX 4090" };
    apply_nvidia_spoof_v1(&profile, &mut props);
    assert_eq!(props.vendor_id, 0x10DE);
    assert_eq!(props.device_id, 0x2684);
    assert_eq!(ext_name(&props.device_name), b"NVIDIA GeForce RTX 4090");
    assert_eq!(props.device_name[24], b'z');
}

#[test]
fn surfaces_and_features_of_the_shown_extension() {
    assert_eq!(present_mode_count(None), 3);
    assert_eq!(present_mode_count(Some(2)), 2);
    assert_eq!(present_mode_count(Some(9)), 3);
    assert_eq!(anti_lag_feature(true, true), None);
    assert_eq!(anti_lag_feature(false, true), Some(true));
    assert_eq!(anti_lag_feature(false, false), Some(false));
}

#[test]
fn a_device_takes_its_queues_with_it() {
    let mut r = Registry::new();
    r.create_instance(1);
    assert!(r.has_instance(1));
    assert!(r.list_physical_device(1, 10));
    assert!(!r.list_physical_device(1, 10));
    assert_eq!(r.instance_of(10), Some(1));
    r.create_device(100, 10);
    r.create_device(200, 10);
    assert!(r.register_queue(1_000, 100));
    assert!(!r.register_queue(1_000, 200));
    assert!(r.register_queue(1_001, 100));
    assert!(r.register_queue(2_000, 200));
    assert_eq!(r.device_of(1_000), Some(100));
    assert_eq!(r.physical_device_of(200), Some(10));
    let mut gone = r.destroy_device(100).unwrap();
    gone.sort();
    assert_eq!(gone, vec![1_000, 1_001]);
    assert_eq!(r.device_of(1_000), None);
    assert_eq!(r.device_of(2_000), Some(200));
    assert!(r.destroy_device(100).is_none());
}

#[test]
fn an_instance_takes_its_physical_devices_with_it() {
    let mut r = Registry::new();
    r.create_instance(1);
    r.create_instance(2);
    r.list_physical_device(1, 10);
    r.list_physical_device(2, 20);
    r.list_physical_device(1, 11);
    assert_eq!(r.destroy_instance(1), Some(vec![10, 11]));
    assert_eq!(r.instance_of(10), None);
    assert_eq!(r.instance_of(20), Some(2));
    assert!(!r.has_instance(1));
    assert_eq!(r.destroy_instance(1), None);
    assert_eq!(r.listed, vec![(2, 20)]);
}
