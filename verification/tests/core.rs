use podview::addr::IpValue;
use podview::container::Container;
use podview::derive_view::Phase;
use podview::model::{ContainerInfo, PodData, PodStatusInfo};
use podview::store::{Backoff, Recovery, Store, StreamSignal, WatchEvent, BACKOFF_BASE_MS, BACKOFF_MAX_MS};
use podview::widget::{
    column_constraints, header, ColWidth, Detail, Event, FilterOverlay, Keypress, PodTable,
    TabContent, Tone,
};
use podview::Broadcast;

fn pod(ns: &str, name: &str) -> PodData {
    PodData {
        namespace: ns.to_string(),
        name: name.to_string(),
        created_at: None,
        spec_containers: Vec::new(),
        status: None,
    }
}

fn container_status(name: &str, ready: bool, restarts: u32) -> ContainerInfo {
    ContainerInfo {
        name: name.to_string(),
        ready,
        restart_count: restarts,
        waiting: false,
        waiting_reason: None,
        terminated_reason: None,
        last_finished_at: None,
    }
}

fn pod_with_statuses(ns: &str, name: &str, statuses: Vec<ContainerInfo>) -> PodData {
    PodData {
        namespace: ns.to_string(),
        name: name.to_string(),
        created_at: None,
        spec_containers: Vec::new(),
        status: Some(PodStatusInfo {
            phase: None,
            pod_ip: None,
            container_statuses: Some(statuses),
        }),
    }
}

fn names(store: &Store) -> Vec<(String, String)> {
    store
        .snapshot()
        .iter()
        .map(|p| (p.namespace.clone(), p.name.clone()))
        .collect()
}

#[test]
fn replay_keeps_last_nondeleted_value_per_key() {
    let mut store = Store::new();
    let mut a = pod("ns", "a");
    a.created_at = Some(1);
    store.apply(WatchEvent::Added(a));
    store.apply(WatchEvent::Added(pod("ns", "b")));
    let mut a2 = pod("ns", "a");
    a2.created_at = Some(9);
    store.apply(WatchEvent::Modified(a2));
    store.apply(WatchEvent::Deleted(pod("ns", "b")));

    let snap = store.snapshot();
    assert_eq!(snap.len(), 1);
    assert_eq!(snap[0].name, "a");
    assert_eq!(snap[0].created_at, Some(9));
}

#[test]
fn replay_deleted_key_is_omitted_even_after_readding_other_keys() {
    let mut store = Store::new();
    store.apply(WatchEvent::Added(pod("ns", "x")));
    store.apply(WatchEvent::Added(pod("ns", "y")));
    store.apply(WatchEvent::Deleted(pod("ns", "x")));
    store.apply(WatchEvent::Modified(pod("ns", "z")));
    assert_eq!(
        names(&store),
        vec![
            ("ns".to_string(), "y".to_string()),
            ("ns".to_string(), "z".to_string())
        ]
    );
}

#[test]
fn snapshot_is_sorted_by_namespace_then_name() {
    let mut store = Store::new();
    store.apply(WatchEvent::Added(pod("zoo", "a")));
    store.apply(WatchEvent::Added(pod("app", "z")));
    store.apply(WatchEvent::Added(pod("app", "a")));
    store.apply(WatchEvent::Added(pod("base", "m")));
    assert_eq!(
        names(&store),
        vec![
            ("app".to_string(), "a".to_string()),
            ("app".to_string(), "z".to_string()),
            ("base".to_string(), "m".to_string()),
            ("zoo".to_string(), "a".to_string())
        ]
    );
}

#[test]
fn readiness_counts_ready_over_total() {
    let p = pod_with_statuses(
        "ns",
        "p",
        vec![
            container_status("a", true, 0),
            container_status("b", false, 0),
            container_status("c", true, 0),
        ],
    );
    assert_eq!(p.ready(), "2/3");
}

#[test]
fn readiness_without_status_is_zero_over_zero() {
    let p = pod("ns", "p");
    assert_eq!(p.ready(), "0/0");
}

#[test]
fn restart_summary_includes_age_of_latest_termination() {
    let t: i64 = 1_000_000;
    let mut c1 = container_status("a", true, 2);
    let c2 = container_status("b", true, 3);
    let c3 = container_status("c", true, 0);
    c1.last_finished_at = Some(t);
    let p = pod_with_statuses("ns", "p", vec![c1, c2, c3]);
    // 120 seconds after the termination the age renders as minutes.
    assert_eq!(p.restarts(t + 120), "5 (2m)");
}

#[test]
fn restart_summary_without_terminations_is_the_sum_alone() {
    let p = pod_with_statuses(
        "ns",
        "p",
        vec![container_status("a", true, 0), container_status("b", true, 0)],
    );
    assert_eq!(p.restarts(123_456), "0");
    assert_eq!(p.restarts_now(), "0");
}

#[test]
fn phase_without_status_is_unknown_with_empty_text() {
    let p = pod("ns", "p");
    assert_eq!(p.status(), Phase::Unknown(String::new()));
}

#[test]
fn phase_running_without_container_statuses_is_running() {
    let p = PodData {
        namespace: "ns".to_string(),
        name: "p".to_string(),
        created_at: None,
        spec_containers: Vec::new(),
        status: Some(PodStatusInfo {
            phase: Some("Running".to_string()),
            pod_ip: None,
            container_statuses: None,
        }),
    };
    assert_eq!(p.status(), Phase::Running);
}

#[test]
fn phase_of_waiting_container_is_its_reason() {
    let mut c = container_status("a", false, 0);
    c.waiting = true;
    c.waiting_reason = Some("ImagePullBackOff".to_string());
    let p = pod_with_statuses("ns", "p", vec![c]);
    assert_eq!(p.status(), Phase::Unknown("ImagePullBackOff".to_string()));
}

#[test]
fn phase_joins_reasons_of_several_containers() {
    let mut c1 = container_status("a", false, 0);
    c1.waiting = true;
    c1.waiting_reason = Some("CrashLoopBackOff".to_string());
    let mut c2 = container_status("b", false, 0);
    c2.terminated_reason = Some("OOMKilled".to_string());
    let p = pod_with_statuses("ns", "p", vec![c1, c2]);
    assert_eq!(
        p.status(),
        Phase::Unknown("CrashLoopBackOff, OOMKilled".to_string())
    );
}

#[test]
fn phase_text_mapping() {
    assert_eq!(Phase::from_text(&Some("Pending".to_string())), Phase::Pending);
    assert_eq!(
        Phase::from_text(&Some("Succeeded".to_string())),
        Phase::Succeeded
    );
    assert_eq!(
        Phase::from_text(&Some("Weird".to_string())),
        Phase::Unknown("Weird".to_string())
    );
    assert_eq!(
        Phase::from_text(&None),
        Phase::Unknown("Unknown".to_string())
    );
    assert_eq!(Phase::Running.text(), "Running");
    assert_eq!(Phase::Unknown("X".to_string()).text(), "X");
}

#[test]
fn age_renders_largest_unit() {
    let mut p = pod("ns", "p");
    p.created_at = Some(100);
    assert_eq!(p.age_text(159), "59s");
    assert_eq!(p.age_text(160), "1m");
    assert_eq!(p.age_text(100 + 3700), "1h");
    assert_eq!(p.age_text(100 + 2 * 86_400), "2d");
    // Unknown creation time reads as zero age.
    let q = pod("ns", "q");
    assert_eq!(q.age_text(100), "0s");
    assert_eq!(q.age_seconds(100), 0);
    assert_eq!(q.age(), 0);
}

fn key(k: Keypress) -> Event {
    Event::Keypress(k)
}

fn type_text(table: &mut PodTable, text: &str) {
    for c in text.chars() {
        assert_eq!(
            table.dispatch(&key(Keypress::Printable(c))),
            Broadcast::Consumed
        );
    }
}

fn five_pod_table() -> PodTable {
    let mut table = PodTable::new();
    for name in ["alpha", "beta", "abc-web", "gamma", "xabcy"] {
        table.apply_event(WatchEvent::Added(pod("ns", name)));
    }
    table
}

#[test]
fn empty_filter_shows_all_items_in_sort_order() {
    let mut table = five_pod_table();
    // Open the filter overlay and type nothing.
    assert_eq!(
        table.dispatch(&key(Keypress::Printable('/'))),
        Broadcast::Consumed
    );
    let idxs = table.visible_indices();
    assert_eq!(idxs, vec![0usize, 1, 2, 3, 4]);
    let rows = table.rows(0);
    let names: Vec<&str> = rows.iter().map(|r| r.name.as_str()).collect();
    assert_eq!(names, vec!["abc-web", "alpha", "beta", "gamma", "xabcy"]);
}

#[test]
fn filter_keeps_only_names_containing_the_text() {
    let mut table = five_pod_table();
    assert_eq!(
        table.dispatch(&key(Keypress::Printable('/'))),
        Broadcast::Consumed
    );
    type_text(&mut table, "abc");
    let rows = table.rows(0);
    let names: Vec<&str> = rows.iter().map(|r| r.name.as_str()).collect();
    assert_eq!(names, vec!["abc-web", "xabcy"]);
    // The filter is case-sensitive.
    let mut upper = PodTable::new();
    upper.apply_event(WatchEvent::Added(pod("ns", "ABCD")));
    assert_eq!(upper.dispatch(&key(Keypress::Printable('/'))), Broadcast::Consumed);
    type_text(&mut upper, "abc");
    assert_eq!(upper.visible_indices().len(), 0);
}

#[test]
fn closing_the_overlay_drops_the_filter() {
    let mut table = five_pod_table();
    assert_eq!(
        table.dispatch(&key(Keypress::Printable('/'))),
        Broadcast::Consumed
    );
    type_text(&mut table, "abc");
    assert_eq!(table.visible_indices().len(), 2);
    // Escape closes the overlay: the parent detaches it and consumes.
    assert_eq!(table.dispatch(&key(Keypress::Escape)), Broadcast::Consumed);
    assert!(table.filter.is_none());
    assert_eq!(table.visible_indices().len(), 5);
}

#[test]
fn selection_is_clamped_when_the_filter_shrinks_the_list() {
    let mut table = five_pod_table();
    for _ in 0..4 {
        assert_eq!(table.dispatch(&key(Keypress::CursorDown)), Broadcast::Consumed);
    }
    assert_eq!(table.selection(), Some(4));
    assert_eq!(table.dispatch(&key(Keypress::Printable('/'))), Broadcast::Consumed);
    type_text(&mut table, "abc");
    // Two items remain visible; the selection reads clamped.
    assert_eq!(table.visible_indices().len(), 2);
    assert_eq!(table.selection(), Some(1));
}

#[test]
fn selection_moves_and_stops_at_the_ends() {
    let mut table = five_pod_table();
    assert_eq!(table.selection(), Some(0));
    assert_eq!(table.dispatch(&key(Keypress::CursorUp)), Broadcast::Consumed);
    assert_eq!(table.selection(), Some(0));
    for _ in 0..9 {
        table.dispatch(&key(Keypress::CursorDown));
    }
    assert_eq!(table.selection(), Some(4));
    let empty = PodTable::new();
    assert_eq!(empty.selection(), None);
}

#[test]
fn escape_on_a_leaf_view_exits() {
    let mut overlay = FilterOverlay::new();
    assert_eq!(overlay.dispatch(&key(Keypress::Escape)), Broadcast::Exited);
    // A list with no open child asks to be closed too.
    let mut table = five_pod_table();
    assert_eq!(table.dispatch(&key(Keypress::Escape)), Broadcast::Exited);
}

#[test]
fn parent_detaches_exited_child_and_consumes() {
    let mut table = five_pod_table();
    assert_eq!(table.dispatch(&key(Keypress::Enter)), Broadcast::Consumed);
    assert!(table.detail.is_some());
    // The detail view exits on Escape; the list detaches it and
    // consumes, so the next frame renders without it.
    assert_eq!(table.dispatch(&key(Keypress::Escape)), Broadcast::Consumed);
    assert!(table.detail.is_none());
    // A second Escape now reaches the list itself.
    assert_eq!(table.dispatch(&key(Keypress::Escape)), Broadcast::Exited);
}

#[test]
fn enter_opens_the_detail_of_the_selected_item() {
    let mut table = five_pod_table();
    assert_eq!(table.dispatch(&key(Keypress::CursorDown)), Broadcast::Consumed);
    assert_eq!(table.dispatch(&key(Keypress::Enter)), Broadcast::Consumed);
    let detail = table.detail.as_ref().unwrap();
    assert_eq!(detail.name, "alpha");
    assert_eq!(detail.breadcrumb(), "ns → alpha");
    // Without a namespace the breadcrumb is the name alone.
    let lone = Detail::new("", "solo");
    assert_eq!(lone.breadcrumb(), "solo");
}

#[test]
fn enter_on_an_empty_list_opens_nothing() {
    let mut table = PodTable::new();
    assert_eq!(table.dispatch(&key(Keypress::Enter)), Broadcast::Consumed);
    assert!(table.detail.is_none());
}

#[test]
fn unbound_keys_are_ignored() {
    let mut table = five_pod_table();
    assert_eq!(table.dispatch(&key(Keypress::Backspace)), Broadcast::Ignored);
    assert_eq!(table.dispatch(&Event::Resize(80, 24)), Broadcast::Ignored);
}

#[test]
fn overlay_edits_text_at_the_cursor() {
    let mut o = FilterOverlay::new();
    for c in ['a', 'b', 'c'] {
        assert_eq!(
            o.dispatch(&key(Keypress::Printable(c))),
            Broadcast::Consumed
        );
    }
    assert_eq!(o.content, vec!['a', 'b', 'c']);
    assert_eq!(o.dispatch(&key(Keypress::CursorLeft)), Broadcast::Consumed);
    assert_eq!(o.dispatch(&key(Keypress::Backspace)), Broadcast::Consumed);
    assert_eq!(o.content, vec!['a', 'c']);
    assert_eq!(o.pos, 1);
    // Backspace at the start leaves the text alone but is consumed.
    assert_eq!(o.dispatch(&key(Keypress::CursorLeft)), Broadcast::Consumed);
    assert_eq!(o.dispatch(&key(Keypress::Backspace)), Broadcast::Consumed);
    assert_eq!(o.content, vec!['a', 'c']);
    // The cursor stops at both ends.
    for _ in 0..5 {
        o.dispatch(&key(Keypress::CursorRight));
    }
    assert_eq!(o.pos, 2);
}

#[test]
fn switching_tabs_rebuilds_content_fresh() {
    let mut table = five_pod_table();
    assert_eq!(table.dispatch(&key(Keypress::Enter)), Broadcast::Consumed);
    // Move to the logs tab and receive some lines.
    assert_eq!(table.dispatch(&key(Keypress::CursorRight)), Broadcast::Consumed);
    {
        let detail = table.detail.as_mut().unwrap();
        assert_eq!(detail.view.active, 1);
        detail.append_log("line one".to_string());
        detail.append_log("line two".to_string());
        match &detail.view.content {
            TabContent::Logs(pane) => assert_eq!(pane.lines.len(), 2),
            TabContent::Overview => panic!("logs tab should hold a logs pane"),
        }
    }
    // Switch away and back: the pane is rebuilt, the old instance
    // (and with it the old stream) is gone.
    assert_eq!(table.dispatch(&key(Keypress::CursorLeft)), Broadcast::Consumed);
    {
        let detail = table.detail.as_ref().unwrap();
        assert_eq!(detail.view.active, 0);
        assert!(matches!(detail.view.content, TabContent::Overview));
    }
    assert_eq!(table.dispatch(&key(Keypress::CursorRight)), Broadcast::Consumed);
    let detail = table.detail.as_ref().unwrap();
    match &detail.view.content {
        TabContent::Logs(pane) => assert_eq!(pane.lines.len(), 0),
        TabContent::Overview => panic!("logs tab should hold a logs pane"),
    }
    // The tab bar stops at its last tab.
    let mut t2 = five_pod_table();
    t2.dispatch(&key(Keypress::Enter));
    t2.dispatch(&key(Keypress::CursorRight));
    t2.dispatch(&key(Keypress::CursorRight));
    assert_eq!(t2.detail.as_ref().unwrap().view.active, 1);
}

#[test]
fn rows_carry_cells_and_tone() {
    let mut table = PodTable::new();
    let mut p = pod_with_statuses(
        "ns",
        "done",
        vec![container_status("a", true, 0)],
    );
    if let Some(st) = p.status.as_mut() {
        st.phase = Some("Succeeded".to_string());
    }
    table.apply_event(WatchEvent::Added(p));
    let mut q = pod("ns", "unknown-one");
    q.created_at = Some(0);
    table.apply_event(WatchEvent::Added(q));
    let rows = table.rows(60);
    assert_eq!(rows.len(), 2);
    assert_eq!(rows[0].name, "done");
    assert_eq!(rows[0].ready, "1/1");
    assert_eq!(rows[0].phase, "Succeeded");
    assert_eq!(rows[0].tone, Tone::Healthy);
    assert_eq!(rows[1].phase, "");
    assert_eq!(rows[1].tone, Tone::Unhealthy);
    assert_eq!(rows[1].age, "1m");
    assert_eq!(rows[1].restarts, "0");
}

#[test]
fn header_and_constraints_match_the_table_shape() {
    assert_eq!(
        header(),
        vec!["Namespace", "Name", "Ready", "Status", "Restarts", "Age"]
    );
    assert_eq!(
        column_constraints(),
        vec![
            ColWidth::Max(20),
            ColWidth::Min(10),
            ColWidth::Max(10),
            ColWidth::Max(10),
            ColWidth::Max(10),
            ColWidth::Max(10)
        ]
    );
}

#[test]
fn containers_join_statuses_and_filter_by_name() {
    let mut p = pod("ns", "p");
    p.spec_containers = vec!["app".to_string(), "sidecar".to_string()];
    p.status = Some(PodStatusInfo {
        phase: None,
        pod_ip: None,
        container_statuses: Some(vec![container_status("sidecar", true, 7)]),
    });
    let all: Vec<Container> = p.containers(None);
    assert_eq!(all.len(), 2);
    assert_eq!(all[0].name, "app");
    assert!(all[0].status.is_none());
    assert_eq!(all[1].name, "sidecar");
    assert_eq!(all[1].status.as_ref().unwrap().restart_count, 7);
    let narrowed = p.containers(Some("side".to_string()));
    assert_eq!(narrowed.len(), 1);
    assert_eq!(narrowed[0].name, "sidecar");
    let none = p.containers(Some("zzz".to_string()));
    assert!(none.is_empty());
}

#[test]
fn ip_parses_a_wellformed_dotted_quad() {
    let mut p = pod("ns", "p");
    p.status = Some(PodStatusInfo {
        phase: None,
        pod_ip: Some("10.0.12.255".to_string()),
        container_statuses: None,
    });
    assert_eq!(p.ip(), Some(IpValue::V4(10, 0, 12, 255)));
}

fn ip_of(text: &str) -> Option<IpValue> {
    let mut p = pod("ns", "p");
    p.status = Some(PodStatusInfo {
        phase: None,
        pod_ip: Some(text.to_string()),
        container_statuses: None,
    });
    p.ip()
}

#[test]
fn ip_parses_colon_form_addresses() {
    assert_eq!(ip_of("::"), Some(IpValue::V6(0, 0, 0, 0, 0, 0, 0, 0)));
    assert_eq!(ip_of("::1"), Some(IpValue::V6(0, 0, 0, 0, 0, 0, 0, 1)));
    assert_eq!(ip_of("1::"), Some(IpValue::V6(1, 0, 0, 0, 0, 0, 0, 0)));
    assert_eq!(
        ip_of("1:2:3:4:5:6:7:8"),
        Some(IpValue::V6(1, 2, 3, 4, 5, 6, 7, 8))
    );
    assert_eq!(
        ip_of("2001:db8::8a2e:370:7334"),
        Some(IpValue::V6(0x2001, 0xdb8, 0, 0, 0, 0x8a2e, 0x370, 0x7334))
    );
    assert_eq!(
        ip_of("::FFFF:10.0.0.1"),
        Some(IpValue::V6(0, 0, 0, 0, 0, 0xffff, 0x0a00, 0x0001))
    );
    assert_eq!(
        ip_of("1:2:3:4:5:6:1.2.3.4"),
        Some(IpValue::V6(1, 2, 3, 4, 5, 6, 0x0102, 0x0304))
    );
}

#[test]
fn ip_is_absent_when_missing_or_malformed() {
    assert!(pod("ns", "p").ip().is_none());
    for bad in [
        "", "abc", "1.2.3", "1.2.3.4.5", "256.1.1.1", "1..2.3", "1.2.3.", ".1.2.3",
        "1.2.3.4x", "01.2.3.4", "1.02.3.4", ":::", "1::2::3", ":1", "1:", "12345::", "g::",
        "1:2:3:4:5:6:7:8:9", "1:2:3:4:5:6:7:8::", "1:2:3:4:5:6:7:1.2.3.4", "::01.2.3.4",
        "1:2:3:4:5:6:7", "::ffff:1.2.3",
    ] {
        assert!(ip_of(bad).is_none(), "{bad} should not parse");
    }
}

#[test]
fn open_filter_takes_precedence_over_open_detail() {
    let mut table = five_pod_table();
    assert_eq!(table.dispatch(&key(Keypress::Enter)), Broadcast::Consumed);
    assert!(table.detail.is_some());
    assert_eq!(
        table.dispatch(&key(Keypress::Printable('/'))),
        Broadcast::Consumed
    );
    assert!(table.filter.is_some());
    // Escape reaches the overlay first: it closes, the detail stays.
    assert_eq!(table.dispatch(&key(Keypress::Escape)), Broadcast::Consumed);
    assert!(table.filter.is_none());
    assert!(table.detail.is_some());
}

#[test]
fn enter_while_filtering_opens_the_selected_filtered_item() {
    let mut table = five_pod_table();
    assert_eq!(
        table.dispatch(&key(Keypress::Printable('/'))),
        Broadcast::Consumed
    );
    type_text(&mut table, "abc");
    assert_eq!(table.dispatch(&key(Keypress::CursorDown)), Broadcast::Consumed);
    // The overlay ignores Enter, so it falls through to the list,
    // which opens the detail of the selected visible item.
    assert_eq!(table.dispatch(&key(Keypress::Enter)), Broadcast::Consumed);
    assert_eq!(table.detail.as_ref().unwrap().name, "xabcy");
}

#[test]
fn reseed_replaces_contents_and_keeps_the_last_value_per_key() {
    let mut store = Store::new();
    store.apply(WatchEvent::Added(pod("old", "gone")));
    let mut newer_a = pod("ns", "a");
    newer_a.created_at = Some(7);
    store.reseed(vec![pod("ns", "b"), pod("ns", "a"), newer_a]);
    let snap = store.snapshot();
    assert_eq!(snap.len(), 2);
    assert_eq!(snap[0].name, "a");
    assert_eq!(snap[0].created_at, Some(7));
    assert_eq!(snap[1].name, "b");
}

#[test]
fn backoff_doubles_up_to_its_bound_and_resets_on_progress() {
    let mut b = Backoff::new();
    assert_eq!(b.delay_ms, BACKOFF_BASE_MS);
    assert_eq!(b.recover(StreamSignal::Failed), Recovery::RetryAfter(500));
    assert_eq!(b.recover(StreamSignal::Failed), Recovery::RetryAfter(1000));
    assert_eq!(b.recover(StreamSignal::Failed), Recovery::RetryAfter(2000));
    for _ in 0..10 {
        b.recover(StreamSignal::Failed);
    }
    assert_eq!(b.delay_ms, BACKOFF_MAX_MS);
    b.on_progress();
    assert_eq!(b.delay_ms, BACKOFF_BASE_MS);
    // An expired marker asks for an immediate relist and starts the
    // backoff over.
    b.recover(StreamSignal::Failed);
    assert_eq!(b.recover(StreamSignal::Expired), Recovery::Relist);
    assert_eq!(b.delay_ms, BACKOFF_BASE_MS);
}
