use shape_arena::bits::{get_bits, get_bits_vec};
use shape_arena::color::rgba_fields;
use shape_arena::connections::Connections;
use shape_arena::gametraits::EntityIndex;
use shape_arena::http::Http_request;
use shape_arena::input::{just_pressed, respawn_actions, InventoryAction, InventoryState, RespawnAction};
use shape_arena::math::matrix::check;
use shape_arena::parser::{find_on_level, get_keys_down, get_mouse, get_variable, level_map, split, split_level};
use shape_arena::server::{reply_to, response_head, route, Reply};
use shape_arena::string::StringOperations;
use shape_arena::wall::WallType;
use shape_arena::websocket::{
    decode, extended_length_size, is_close_frame, payload_length, response, text_frame_header, ws_accept_key,
    SessionAction, WsSession,
};

fn strings(v: &[&str]) -> Vec<String> {
    v.iter().map(|s| s.to_string()).collect()
}

#[test]
fn bits_of_one_byte() {
    assert_eq!(get_bits(0), "00000000");
    assert_eq!(get_bits(255), "1248163264128");
    assert_eq!(get_bits(5), "10400000");
}

#[test]
fn bits_of_bytes_are_concatenated() {
    assert_eq!(get_bits_vec(&vec![]), "");
    assert_eq!(get_bits_vec(&vec![1, 128]), "100000000000000128");
}

#[test]
fn substring_edges() {
    let s = "abc".to_owned();
    assert_eq!(s.substring(0, 2), "abc");
    assert_eq!(s.substring(2, 1), "");
    assert_eq!(s.substring(1, 1), "b");
    let wide = "héllo".to_owned();
    assert_eq!(wide.substring(1, 2), "él");
}

#[test]
fn get_variable_missing_parts() {
    assert_eq!(get_variable(&"let y = 1;".to_owned(), "x"), None);
    assert_eq!(get_variable(&"let x = 1".to_owned(), "x"), None);
    assert_eq!(get_variable(&"let x 1;".to_owned(), "x"), None);
    assert_eq!(get_variable(&"a; let name = bob;".to_owned(), "name"), Some("bob".to_owned()));
}

#[test]
fn get_mouse_signs_and_absence() {
    assert_eq!(get_mouse(&"let x = -12;let y = +7;".to_owned()), Some((-12, 7)));
    assert_eq!(get_mouse(&"let x = -2147483648;let y = 2147483647;".to_owned()), Some((i32::MIN, i32::MAX)));
    assert_eq!(get_mouse(&"let x = 3;".to_owned()), None);
    assert_eq!(get_mouse(&"nothing here".to_owned()), None);
}

#[test]
fn keys_down_are_split_at_commas() {
    let text = "let keys_down = KeyW,KeyA,Space;".to_owned();
    assert_eq!(get_keys_down(&text), strings(&["KeyW", "KeyA", "Space"]));
}

#[test]
fn split_drops_one_trailing_separator() {
    assert_eq!(split(&"a,b,".to_owned(), ","), strings(&["a", "b"]));
    assert_eq!(split(&",a".to_owned(), ","), strings(&["", "a"]));
    assert_eq!(split(&"a,,b".to_owned(), ","), strings(&["a", "", "b"]));
    assert_eq!(split(&"".to_owned(), ","), Vec::<String>::new());
    assert_eq!(split(&"x::y".to_owned(), "::"), strings(&["x", "y"]));
}

#[test]
fn split_then_join_gives_text_back() {
    let text = "i,want,some(a,b,c),milk".to_owned();
    assert_eq!(split(&text, ",").join(","), text);
    let trailing = "a,b,".to_owned();
    assert_eq!(split(&trailing, ",").join(",") + ",", trailing);
}

#[test]
fn level_map_ignores_brackets_in_quotes() {
    let text = "a(\"(\")b".to_owned();
    assert_eq!(level_map(&text), vec![0, 1, 1, 1, 1, 0, 0]);
    let nested = "{[()]}".to_owned();
    assert_eq!(level_map(&nested), vec![1, 2, 3, 2, 1, 0]);
    assert_eq!(level_map(&"'[' x".to_owned()), vec![0, 0, 0, 0, 0]);
}

#[test]
fn find_on_level_first_round() {
    let text = "a,(b,c)".to_owned();
    assert_eq!(find_on_level(&text, 0, ","), Some(1));
    assert_eq!(find_on_level(&text, 0, "z"), None);
    let inner = "(,)xx,".to_owned();
    // the first comma is inside the brackets; the next one is on level zero
    assert_eq!(find_on_level(&inner, 0, ","), Some(5));
    assert_eq!(find_on_level(&inner, 1, ","), Some(1));
    assert_eq!(find_on_level(&"a(a".to_owned(), 1, "a"), Some(2));
    assert_eq!(find_on_level(&"a(a".to_owned(), 2, "a"), None);
}

#[test]
fn split_level_keeps_brackets_whole() {
    let text = "(,)x,y".to_owned();
    assert_eq!(split_level(&text, ","), strings(&["(,)x", "y"]));
    let quoted = "f('a,b'),g".to_owned();
    assert_eq!(split_level(&quoted, ","), strings(&["f('a,b')", "g"]));
    assert_eq!(split_level(&"a,b,".to_owned(), ","), strings(&["a", "b"]));
    assert_eq!(split_level(&"".to_owned(), ""), Vec::<String>::new());
}

#[test]
fn split_level_on_flat_text() {
    let text = "a,b,c".to_owned();
    assert_eq!(split_level(&text, ","), strings(&["a", "b", "c"]));
}

#[test]
fn header_parse_roundtrip_example() {
    let line = "Host: example.org".to_owned();
    assert_eq!(Http_request::parse_header(&line), ("Host".to_owned(), "example.org".to_owned()));
    let value_with_sep = "X: a: b".to_owned();
    assert_eq!(Http_request::parse_header(&value_with_sep), ("X".to_owned(), "a: b".to_owned()));
}

#[test]
fn parse_without_lines_is_an_error() {
    assert_eq!(Http_request::parse(&"".to_owned()), Err("no request line".to_owned()));
}

#[test]
fn parse_skips_copies_of_the_request_line_and_empty_lines() {
    let text = "GET / HTTP/1.1\na: 1\n\nbody1\nGET / HTTP/1.1\n\nbody2\n".to_owned();
    let request = Http_request::parse(&text).unwrap();
    assert_eq!(request.request_line, "GET / HTTP/1.1");
    assert_eq!(request.headers, vec![("a".to_owned(), "1".to_owned())]);
    assert_eq!(request.body, strings(&["body1", "body2"]));
}

#[test]
fn get_header_takes_the_first_match() {
    let request = Http_request {
        request_line: "GET / HTTP/1.1".to_owned(),
        headers: vec![("k".to_owned(), "1".to_owned()), ("k".to_owned(), "2".to_owned())],
        body: vec![],
    };
    assert_eq!(request.get_header("k".to_owned()), Some(&"1".to_owned()));
    assert_eq!(request.get_header("K".to_owned()), None);
    let empty = Http_request::new();
    assert_eq!(empty.request_line, "");
    assert!(empty.headers.is_empty() && empty.body.is_empty());
}

#[test]
fn accept_key_of_the_rfc_example() {
    assert_eq!(ws_accept_key("dGhlIHNhbXBsZSBub25jZQ=="), "s3pPLMBiTxaQ9kYGzzhZRbK+xOo=");
}

#[test]
fn upgrade_response_text() {
    assert_eq!(
        response("dGhlIHNhbXBsZSBub25jZQ=="),
        "HTTP/1.1 101 Switching Protocols\nUpgrade: websocket\nConnection: Upgrade\nSec-WebSocket-Accept: s3pPLMBiTxaQ9kYGzzhZRbK+xOo=\n\n"
    );
}

#[test]
fn unmasking_twice_restores_the_payload() {
    let payload = vec![1u8, 2, 3, 4, 5, 250];
    let mask = vec![0x37u8, 0xfa, 0x21, 0x3d];
    let once = decode(&payload, &mask);
    assert_eq!(once, vec![1 ^ 0x37, 2 ^ 0xfa, 3 ^ 0x21, 4 ^ 0x3d, 5 ^ 0x37, 250 ^ 0xfa]);
    assert_eq!(decode(&once, &mask), payload);
    assert_eq!(decode(&vec![], &vec![]), Vec::<u8>::new());
}

#[test]
fn frame_headers_for_each_length_class() {
    assert_eq!(text_frame_header(5), vec![0x81, 5]);
    assert_eq!(text_frame_header(125), vec![0x81, 125]);
    assert_eq!(text_frame_header(126), vec![0x81, 126, 0, 126]);
    assert_eq!(text_frame_header(65535), vec![0x81, 126, 0xff, 0xff]);
    assert_eq!(text_frame_header(65536), vec![0x81, 127, 0, 0, 0, 0, 0, 1, 0, 0]);
}

#[test]
fn frame_header_reads_back() {
    for length in [0usize, 1, 125, 126, 300, 65535, 65536, 1_000_000] {
        let header = text_frame_header(length);
        assert!(!is_close_frame(header[0]));
        let n = extended_length_size(header[1]);
        assert_eq!(header.len(), 2 + n);
        assert_eq!(payload_length(header[1], &header[2..].to_vec()), length);
    }
}

#[test]
fn client_frame_fields() {
    assert!(is_close_frame(0x88));
    assert!(!is_close_frame(0x81));
    assert_eq!(extended_length_size(0x80 | 126), 2);
    assert_eq!(extended_length_size(0x80 | 127), 8);
    assert_eq!(extended_length_size(0x80 | 20), 0);
    assert_eq!(payload_length(0x80 | 20, &vec![]), 20);
    assert_eq!(payload_length(0x80 | 126, &vec![1, 2]), 258);
    assert_eq!(payload_length(0x80 | 126, &vec![0, 0]), 126);
}

#[test]
fn session_tracks_the_logged_in_player() {
    let mut session = WsSession::new();
    assert_eq!(session.on_read_error(), SessionAction::Close { logout: None });
    let name = "anna".to_owned();
    assert_eq!(session.on_message(&"game".to_owned(), &name), SessionAction::Input(name.clone()));
    assert_eq!(session.username, None);
    assert_eq!(session.on_message(&"login".to_owned(), &name), SessionAction::Login(name.clone()));
    assert_eq!(session.on_message(&"dance".to_owned(), &name), SessionAction::Ignore);
    assert_eq!(session.on_message(&"logout".to_owned(), &name), SessionAction::Logout(name.clone()));
    assert_eq!(session.on_read_error(), SessionAction::Close { logout: Some(name) });
}

#[test]
fn closing_logs_out_the_last_login() {
    let mut session = WsSession::new();
    let (anna, ben) = ("anna".to_owned(), "ben".to_owned());
    session.on_message(&"login".to_owned(), &anna);
    session.on_message(&"game".to_owned(), &anna);
    session.on_message(&"login".to_owned(), &ben);
    session.on_message(&"logout".to_owned(), &anna);
    assert_eq!(session.on_read_error(), SessionAction::Close { logout: Some(ben) });
}

#[test]
fn routes_of_the_server() {
    assert_eq!(route(&"OPTIONS / HTTP/1.1".to_owned()), ("HTTP/1.1 200 OK".to_owned(), None));
    assert_eq!(
        route(&"GET / HTTP/1.1".to_owned()),
        ("HTTP/1.1 200 OK".to_owned(), Some("./res/hello.html".to_owned()))
    );
    assert_eq!(
        route(&"GET /candytop.png HTTP/1.1".to_owned()),
        ("HTTP/1.1 200 OK".to_owned(), Some("./res/candytop.png".to_owned()))
    );
    assert_eq!(
        route(&"GET /secret HTTP/1.1".to_owned()),
        ("HTTP/1.1 404 NOT FOUND".to_owned(), Some("./res/404.html".to_owned()))
    );
}

#[test]
fn page_head_text() {
    assert_eq!(
        response_head(&"HTTP/1.1 200 OK".to_owned(), 1234),
        "HTTP/1.1 200 OK\r\nContent-Length: 1234\r\nAccess-Control-Allow-Origin: *\r\nAccess-Control-Allow-Headers: content-type\r\n\r\n"
    );
    assert!(response_head(&"S".to_owned(), 0).starts_with("S\r\nContent-Length: 0\r\n"));
}

#[test]
fn websocket_key_decides_the_reply() {
    let text = "GET /chat HTTP/1.1\r\nSec-WebSocket-Key: dGhlIHNhbXBsZSBub25jZQ==\r\n\r\n".to_owned();
    let request = Http_request::parse(&text).unwrap();
    assert_eq!(reply_to(&request), Reply::Upgrade(response("dGhlIHNhbXBsZSBub25jZQ==")));
    let page = Http_request::parse(&"GET /bg.png HTTP/1.1\r\nHost: x\r\n".to_owned()).unwrap();
    assert_eq!(
        reply_to(&page),
        Reply::Page { status_line: "HTTP/1.1 200 OK".to_owned(), resource: Some("./res/bg.png".to_owned()) }
    );
}

#[test]
fn just_pressed_keys() {
    let now = strings(&["KeyW", "KeyA", "Space"]);
    let before = strings(&["KeyA"]);
    assert_eq!(just_pressed(&now, &before), strings(&["KeyW", "Space"]));
    assert_eq!(just_pressed(&now, &now), Vec::<String>::new());
}

#[test]
fn inventory_opens_and_selects_the_first_item() {
    let mut inventory = InventoryState::new();
    let actions = inventory.handle_inventory(&strings(&["KeyE"]), 3, 0);
    assert!(actions.is_empty());
    assert!(inventory.open);
    assert_eq!(inventory.selected_item, Some(0));
    let actions = inventory.handle_inventory(&strings(&["ArrowUp", "ArrowRight"]), 3, 0);
    assert_eq!(inventory.selected_item, Some(2));
    assert_eq!(actions, vec![InventoryAction::SetItemActive(2, true)]);
    inventory.handle_inventory(&strings(&["ArrowDown"]), 3, 0);
    assert_eq!(inventory.selected_item, Some(0));
    inventory.handle_inventory(&strings(&["KeyE"]), 3, 0);
    assert!(!inventory.open);
    assert_eq!(inventory.selected_item, None);
}

#[test]
fn inventory_binds_keys_and_toggles_items() {
    let mut inventory = InventoryState::new();
    inventory.handle_inventory(&strings(&["KeyE"]), 2, 0);
    inventory.handle_inventory(&strings(&["ArrowDown"]), 2, 0);
    inventory.handle_inventory(&strings(&["KeyB"]), 2, 0);
    assert!(inventory.bind_mode);
    inventory.handle_inventory(&strings(&["Digit7"]), 2, 0);
    assert!(!inventory.bind_mode);
    assert_eq!(inventory.bindings, vec![("Digit7".to_owned(), 1)]);
    let actions = inventory.handle_inventory(&strings(&["Digit7"]), 2, 0);
    assert_eq!(actions, vec![InventoryAction::ToggleItem(1)]);
    // leaving bind mode with KeyB clears all bindings
    inventory.handle_inventory(&strings(&["KeyB"]), 2, 0);
    inventory.handle_inventory(&strings(&["KeyB"]), 2, 0);
    assert!(inventory.bindings.is_empty());
}

#[test]
fn inventory_collects_and_drops() {
    let mut inventory = InventoryState::new();
    inventory.handle_inventory(&strings(&["KeyE"]), 1, 0);
    assert_eq!(inventory.selected_item, Some(0));
    let actions = inventory.handle_inventory(&strings(&["KeyC"]), 1, 2);
    assert_eq!(actions, vec![InventoryAction::CollectAll]);
    inventory.handle_inventory(&strings(&["ArrowUp"]), 3, 0);
    assert_eq!(inventory.selected_item, Some(2));
    let actions = inventory.handle_inventory(&strings(&["KeyG"]), 3, 0);
    assert_eq!(actions, vec![InventoryAction::DropItem(2)]);
    assert_eq!(inventory.selected_item, Some(1));
    inventory.handle_inventory(&strings(&["KeyG"]), 2, 0);
    let actions = inventory.handle_inventory(&strings(&["KeyG"]), 1, 0);
    assert_eq!(actions, vec![InventoryAction::DropItem(0)]);
    assert_eq!(inventory.selected_item, None);
}

#[test]
fn respawn_and_teleports() {
    let names = strings(&["heart", "teleportation scroll", "teleportation scroll"]);
    let actions = respawn_actions(&strings(&["KeyR"]), &strings(&["Digit2", "Digit4", "KeyQ"]), &names);
    assert_eq!(
        actions,
        vec![
            RespawnAction::Respawn,
            RespawnAction::Teleport { corner: 1, scroll: 1 },
            RespawnAction::Teleport { corner: 3, scroll: 1 },
            RespawnAction::ActivateItem(0),
        ]
    );
    let none = respawn_actions(&vec![], &strings(&["Digit1"]), &strings(&["heart"]));
    assert!(none.is_empty());
}

#[test]
fn colour_fields() {
    assert_eq!(rgba_fields("rgb(3,62,21)"), strings(&["3", "62", "21"]));
    assert_eq!(rgba_fields(" rgba(93,  62,21, 0.5)"), strings(&["93", "62", "21", "0.5"]));
    assert_eq!(rgba_fields("rgb()"), strings(&[""]));
    // the brackets are found at byte positions, which count characters after that
    assert_eq!(rgba_fields("\u{e9}(1,2)"), strings(&["", "2)"]));
}

#[test]
fn matrix_shapes() {
    let empty: Vec<Vec<i32>> = vec![];
    assert!(!check(&empty));
    assert!(check(&vec![Vec::<i32>::new()]));
    assert!(check(&vec![vec![1, 2, 3], vec![4, 5, 6]]));
}

#[test]
fn identifiers_compare_by_value() {
    assert_eq!(EntityIndex::Enemy { g: 1, e: 2 }, EntityIndex::Enemy { g: 1, e: 2 });
    assert_ne!(EntityIndex::Player { p: 0 }, EntityIndex::Enemy { g: 0, e: 0 });
    assert_eq!(WallType::Fire, WallType::Fire);
    assert_ne!(WallType::Fire, WallType::Ice);
}

#[test]
fn connection_book_follows_logins_and_failures() {
    let mut book = Connections::new();
    for name in ["anna", "ben", "anna", "cleo"] {
        book.login(name.to_owned());
    }
    assert_eq!(book.logout("anna"), Some(0));
    assert_eq!(book.names, strings(&["ben", "anna", "cleo"]));
    assert_eq!(book.logout("dora"), None);
    book.drop_failed(&vec![0, 2]);
    assert_eq!(book.names, strings(&["anna"]));
}
