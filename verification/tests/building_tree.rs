use bms_store_gui::components::building_tree::{
    add_button, collect_spatial_ancestors, find_nav_node, find_nav_parent, find_spatial_parent_store_id,
    is_container, kind_options, new_node_kind, node_store_id, store_node_tag, NavNode, NavNodeKind,
};

fn node(id: &str, kind: NavNodeKind, children: Vec<NavNode>) -> NavNode {
    NavNode { id: id.to_string(), kind, children }
}

fn tree() -> Vec<NavNode> {
    vec![
        node(
            "n1",
            NavNodeKind::Site { node_id: "site-a".to_string() },
            vec![node(
                "n2",
                NavNodeKind::Building { node_id: "bldg-b".to_string() },
                vec![node(
                    "n3",
                    NavNodeKind::Floor { node_id: "floor-c".to_string() },
                    vec![
                        node("n4", NavNodeKind::Room { node_id: "room-d".to_string() }, vec![]),
                        node(
                            "n5",
                            NavNodeKind::FloorArea { node_id: "flarea-e".to_string() },
                            vec![node("n6", NavNodeKind::Room { node_id: "room-f".to_string() }, vec![])],
                        ),
                    ],
                )],
            )],
        ),
        node("n7", NavNodeKind::Site { node_id: "site-g".to_string() }, vec![]),
    ]
}

#[test]
fn finds_nodes_and_parents() {
    let t = tree();
    assert_eq!(find_nav_node(&t, "n6").map(|n| n.id.as_str()), Some("n6"));
    assert_eq!(find_nav_node(&t, "n7").map(|n| n.id.as_str()), Some("n7"));
    assert!(find_nav_node(&t, "zz").is_none());
    assert_eq!(find_nav_parent(&t, "n6").map(|n| n.id.as_str()), Some("n5"));
    assert_eq!(find_nav_parent(&t, "n2").map(|n| n.id.as_str()), Some("n1"));
    assert!(find_nav_parent(&t, "n1").is_none());
    assert!(find_nav_parent(&t, "zz").is_none());
}

#[test]
fn spatial_ancestors_nearest_first() {
    let t = tree();
    let r = collect_spatial_ancestors(&t, "n6");
    assert_eq!(r.site_ref.as_deref(), Some("site-a"));
    assert_eq!(r.building_ref.as_deref(), Some("bldg-b"));
    assert_eq!(r.floor_ref.as_deref(), Some("floor-c"));
    assert_eq!(r.space_ref.as_deref(), Some("room-f"));
    let r = collect_spatial_ancestors(&t, "n3");
    assert_eq!(r.floor_ref.as_deref(), Some("floor-c"));
    assert_eq!(r.space_ref, None);
    let r = collect_spatial_ancestors(&t, "missing");
    assert!(r.site_ref.is_none() && r.building_ref.is_none() && r.floor_ref.is_none() && r.space_ref.is_none());
}

#[test]
fn parent_store_id_of_a_new_child() {
    let t = tree();
    assert_eq!(find_spatial_parent_store_id(&t, "n5"), Some("flarea-e".to_string()));
    assert_eq!(find_spatial_parent_store_id(&t, "n7"), Some("site-g".to_string()));
    assert_eq!(find_spatial_parent_store_id(&t, "zz"), None);
}

#[test]
fn adding_nodes() {
    assert_eq!(kind_options("root"), vec![("site", "Site")]);
    assert_eq!(kind_options("site"), vec![("building", "Building")]);
    assert_eq!(kind_options("building"), vec![("floor", "Floor")]);
    assert_eq!(kind_options("floor"), vec![("floorArea", "Floor Area"), ("room", "Room")]);
    assert_eq!(kind_options("floorArea"), vec![("room", "Room")]);
    assert!(kind_options("room").is_empty());
    assert_eq!(add_button(true), ("+ Child", "nav-add-btn nav-add-child"));
    assert_eq!(add_button(false), ("+ Add", "nav-add-btn"));
    let k = new_node_kind("floorArea", "1234").unwrap();
    assert!(matches!(k, NavNodeKind::FloorArea { .. }));
    assert_eq!(node_store_id(&k), "flarea-1234");
    assert_eq!(node_store_id(&new_node_kind("building", "u").unwrap()), "bldg-u");
    assert!(new_node_kind("equip", "u").is_none());
    assert_eq!(store_node_tag(&NavNodeKind::Site { node_id: String::new() }), None);
    assert_eq!(store_node_tag(&NavNodeKind::Room { node_id: String::new() }), Some("room"));
    assert!(is_container(&NavNodeKind::Floor { node_id: String::new() }));
    assert!(!is_container(&NavNodeKind::Room { node_id: String::new() }));
}

use bms_store_gui::components::building_tree::{breadcrumb, has_arrow, nav_icon};

#[test]
fn nav_icons_and_arrows() {
    let room = NavNodeKind::Room { node_id: "r1".to_string() };
    assert_eq!(nav_icon(&room), "\u{1F6AA}");
    assert_eq!(nav_icon(&NavNodeKind::Building { node_id: "b".to_string() }), "\u{1F3E2}");
    assert_eq!(nav_icon(&NavNodeKind::Site { node_id: "s".to_string() }), "\u{1F3D8}\u{FE0F}");
    assert!(!has_arrow(&node("n1", room.clone(), vec![])));
    assert!(has_arrow(&node("n2", NavNodeKind::Floor { node_id: "f".to_string() }, vec![])));
}

#[test]
fn location_breadcrumb_lists_found_levels() {
    let b = breadcrumb(&Some("Campus".to_string()), &None, &Some("Level 2".to_string()), &Some("201".to_string()));
    assert_eq!(
        b,
        Some(vec![("site", "Campus".to_string()), ("floor", "Level 2".to_string()), ("room", "201".to_string())])
    );
    assert_eq!(breadcrumb(&None, &None, &None, &None), None);
}
