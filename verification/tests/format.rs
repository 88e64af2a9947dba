use okeuvo::geometry::{isqrt_u128, polar_radius, vector_addition_2d, Point2D, Vector2D};
use okeuvo::hashing::{
    format_hash_token, get_hash, round_pad_stringulate, sort_hash_items_desc, HashItem,
    HashItemFormatted,
};
use okeuvo::hull::{calculate_convex_hull, convex_hull_sets, polygon_area_doubled};
use okeuvo::wordnet::{pos_letter, pos_num_to_subtract};
use okeuvo::EncodeError;

fn formatted(a: u8, b: u8, c: u8, d: u8) -> HashItemFormatted {
    HashItemFormatted {
        right_leaning: a,
        upper_angle: b,
        right_leaning_excited: c,
        upper_angle_excited: d,
    }
}

#[test]
fn token_is_nine_chars_with_zero_padding() {
    let t = format_hash_token(&formatted(1, 5, 2, 99));
    assert_eq!(t, "1!05!2!99");
    let t = format_hash_token(&formatted(0, 0, 0, 0));
    assert_eq!(t, "0!00!0!00");
}

#[test]
fn fingerprint_is_199_chars_of_20_tokens() {
    let items = vec![formatted(1, 5, 2, 99), formatted(0, 42, 1, 7)];
    let hash = get_hash(&items, true).unwrap();
    assert_eq!(hash.len(), 199);
    let tokens: Vec<&str> = hash.split('-').collect();
    assert_eq!(tokens.len(), 20);
    for token in &tokens {
        assert_eq!(token.len(), 9);
    }
    assert_eq!(tokens[0], "1!05!2!99");
    assert_eq!(tokens[1], "0!42!1!07");
}

#[test]
fn fingerprint_pads_missing_entities_with_sentinel() {
    let items = vec![formatted(2, 33, 0, 1)];
    let hash = get_hash(&items, true).unwrap();
    let tokens: Vec<&str> = hash.split('-').collect();
    assert_eq!(tokens[0], "2!33!0!01");
    for i in 1..20 {
        assert_eq!(tokens[i], "#!##!#!##");
    }
}

#[test]
fn fingerprint_of_no_entities_is_all_sentinels() {
    let items: Vec<HashItemFormatted> = Vec::new();
    let hash = get_hash(&items, true).unwrap();
    let expected = vec!["#!##!#!##"; 20].join("-");
    assert_eq!(hash, expected);
}

#[test]
fn get_hash_requires_consent() {
    let items = vec![formatted(1, 5, 2, 9)];
    let r = get_hash(&items, false);
    assert_eq!(r, Err(EncodeError::ConsentDenied));
    assert_eq!(
        EncodeError::ConsentDenied.message(),
        "You must agree to The Creed to continue"
    );
}

#[test]
fn fingerprint_truncates_to_twenty_tokens() {
    let mut items = Vec::new();
    for i in 0..25u8 {
        items.push(formatted(1, i, 1, i));
    }
    let rendered = round_pad_stringulate(&items, 20);
    assert_eq!(rendered.len(), 20);
    assert_eq!(rendered[0], "1!00!1!00");
    assert_eq!(rendered[19], "1!19!1!19");
}

fn item_with_radius(excited_x: i64) -> HashItem {
    HashItem {
        x: 0,
        y: 0,
        hash_type: 1,
        discourse_id: 1,
        excited_x,
        excited_y: 0,
    }
}

#[test]
fn hash_items_sort_descending_by_excited_radius() {
    let items = vec![
        item_with_radius(3),
        item_with_radius(10),
        item_with_radius(7),
        item_with_radius(10),
    ];
    let sorted = sort_hash_items_desc(items);
    let radii: Vec<i64> = sorted.iter().map(|h| h.excited_x).collect();
    assert_eq!(radii, vec![10, 10, 7, 3]);
}

#[test]
fn equal_radii_keep_their_first_seen_order() {
    let mark = |excited_x: i64, discourse_id: i32| HashItem {
        x: 0,
        y: 0,
        hash_type: 1,
        discourse_id,
        excited_x,
        excited_y: 0,
    };
    // Three items of equal radius, told apart by their discourse mark.
    let items = vec![mark(5, 1), mark(9, 0), mark(5, 2), mark(5, 3)];
    let sorted = sort_hash_items_desc(items);
    let marks: Vec<i32> = sorted.iter().map(|h| h.discourse_id).collect();
    assert_eq!(marks, vec![0, 1, 2, 3]);
}

#[test]
fn truncation_keeps_only_top_twenty_by_excited_radius() {
    let mut items = Vec::new();
    for i in 0..25i64 {
        items.push(item_with_radius(i));
    }
    let sorted = sort_hash_items_desc(items);
    // The top 20 radii are 24 down to 5; the composer then renders the
    // first 20 items only.
    assert_eq!(sorted[0].excited_x, 24);
    assert_eq!(sorted[19].excited_x, 5);
    assert_eq!(sorted.len(), 25);
}

#[test]
fn point_three_four_has_polar_radius_five() {
    let r = polar_radius(&Point2D { x: 3, y: 4 });
    assert_eq!(r, 5);
    assert_eq!(isqrt_u128(24), 4);
    assert_eq!(isqrt_u128(25), 5);
    // The polar angle of (3, 4) is atan(4/3), checked here in floating
    // point against the same ratio the grid coordinates carry.
    let angle = (4.0f64 / 3.0f64).atan();
    assert!((angle - 0.9273).abs() < 1.0e-4);
}

#[test]
fn vector_addition_is_componentwise() {
    let a = Vector2D {
        start: Point2D { x: 0, y: 0 },
        end: Point2D { x: 1, y: 2 },
    };
    let b = Vector2D {
        start: Point2D { x: 0, y: 0 },
        end: Point2D { x: 3, y: 4 },
    };
    let c = vector_addition_2d(&a, &b);
    assert_eq!(c.end, Point2D { x: 4, y: 6 });
}

#[test]
fn square_corners_form_first_hull_layer() {
    let corners = [
        Point2D { x: 0, y: 0 },
        Point2D { x: 4, y: 0 },
        Point2D { x: 4, y: 4 },
        Point2D { x: 0, y: 4 },
    ];
    let mut vectors = Vec::new();
    for p in corners.iter() {
        vectors.push(Vector2D {
            start: Point2D { x: 0, y: 0 },
            end: *p,
        });
    }
    vectors.push(Vector2D {
        start: Point2D { x: 0, y: 0 },
        end: Point2D { x: 2, y: 1 },
    });
    let layers = convex_hull_sets(&vectors, true).unwrap();
    assert_eq!(layers.len(), 1);
    let first = &layers[0];
    assert_eq!(first.len(), 4);
    for corner in corners.iter() {
        assert!(first.contains(corner));
    }
    // After removing the first layer a single interior point remains,
    // so no further layer is produced.
    let remaining = vec![Vector2D {
        start: Point2D { x: 0, y: 0 },
        end: Point2D { x: 2, y: 1 },
    }];
    let empty_layers = convex_hull_sets(&remaining, true).unwrap();
    assert!(empty_layers.is_empty());
}

#[test]
fn nested_squares_yield_two_layers() {
    let outer = [
        Point2D { x: 0, y: 0 },
        Point2D { x: 8, y: 0 },
        Point2D { x: 8, y: 8 },
        Point2D { x: 0, y: 8 },
    ];
    let inner = [
        Point2D { x: 3, y: 3 },
        Point2D { x: 5, y: 3 },
        Point2D { x: 5, y: 5 },
        Point2D { x: 3, y: 5 },
    ];
    let mut vectors = Vec::new();
    for p in outer.iter().chain(inner.iter()) {
        vectors.push(Vector2D {
            start: Point2D { x: 0, y: 0 },
            end: *p,
        });
    }
    let layers = convex_hull_sets(&vectors, true).unwrap();
    assert_eq!(layers.len(), 2);
    assert_eq!(layers[0].len(), 4);
    for corner in outer.iter() {
        assert!(layers[0].contains(corner));
    }
    assert_eq!(layers[1].len(), 4);
    for corner in inner.iter() {
        assert!(layers[1].contains(corner));
    }
}

#[test]
fn hull_of_two_points_is_the_points() {
    let points = vec![Point2D { x: 1, y: 1 }, Point2D { x: 2, y: 2 }];
    let hull = calculate_convex_hull(&points);
    assert_eq!(hull, points);
}

#[test]
fn doubled_polygon_area_of_unit_square_scaled() {
    let square = vec![
        Point2D { x: 0, y: 0 },
        Point2D { x: 4, y: 0 },
        Point2D { x: 4, y: 4 },
        Point2D { x: 0, y: 4 },
    ];
    assert_eq!(polygon_area_doubled(&square), 32);
    let degenerate = vec![Point2D { x: 0, y: 0 }, Point2D { x: 4, y: 0 }];
    assert_eq!(polygon_area_doubled(&degenerate), 0);
}

#[test]
fn consent_gate_refuses_hull_layering() {
    let vectors = vec![Vector2D {
        start: Point2D { x: 0, y: 0 },
        end: Point2D { x: 1, y: 1 },
    }];
    assert_eq!(
        convex_hull_sets(&vectors, false),
        Err(EncodeError::ConsentDenied)
    );
}

#[test]
fn wordnet_offsets_by_part_of_speech() {
    assert_eq!(pos_num_to_subtract("n"), Some(100000000));
    assert_eq!(pos_num_to_subtract("v"), Some(200000000));
    assert_eq!(pos_num_to_subtract("s"), Some(300000000));
    assert_eq!(pos_num_to_subtract("a"), Some(300000000));
    assert_eq!(pos_num_to_subtract("r"), Some(400000000));
    assert_eq!(pos_num_to_subtract("x"), Some(0));
    assert_eq!(pos_num_to_subtract("nn"), Some(0));
}

#[test]
fn wordnet_letter_by_id_block() {
    assert_eq!(pos_letter(&150000000), Some("n".to_string()));
    assert_eq!(pos_letter(&250000000), Some("v".to_string()));
    assert_eq!(pos_letter(&350000000), Some("a".to_string()));
    assert_eq!(pos_letter(&450000000), Some("r".to_string()));
    assert_eq!(pos_letter(&200000000), Some("".to_string()));
}

#[test]
fn version_is_fixed() {
    assert_eq!(okeuvo::version(), "19.07.23 (Codename Ama)");
}
