use rs3d::request::{parse_request, parse_u32, RequestError};

fn fields(pairs: &[(&str, &str)]) -> Vec<(String, String)> {
    pairs.iter().map(|(k, v)| (k.to_string(), v.to_string())).collect()
}

#[test]
fn well_formed_request() {
    let f = fields(&[("model", "chair.glb"), ("width", "512"), ("texture_a", "a.png"), ("height", "256"), ("texture_b", "b.png")]);
    let job = parse_request(&f).expect("job");
    assert_eq!(job.model, "chair.glb");
    assert_eq!(job.width, 512);
    assert_eq!(job.height, 256);
    assert_eq!(job.textures, vec!["a.png".to_string(), "b.png".to_string()]);
}

#[test]
fn missing_width_is_rejected() {
    let f = fields(&[("model", "chair.glb"), ("height", "256")]);
    assert_eq!(parse_request(&f), Err(RequestError::MissingField("width".to_string())));
}

#[test]
fn missing_model_is_rejected_first() {
    let f = fields(&[("width", "x")]);
    assert_eq!(parse_request(&f), Err(RequestError::MissingField("model".to_string())));
}

#[test]
fn missing_height_is_rejected() {
    let f = fields(&[("model", "m"), ("width", "1")]);
    assert_eq!(parse_request(&f), Err(RequestError::MissingField("height".to_string())));
}

#[test]
fn unparsable_width_is_rejected() {
    let f = fields(&[("model", "m"), ("width", "12px"), ("height", "1")]);
    assert_eq!(parse_request(&f), Err(RequestError::ParseError("width".to_string())));
}

#[test]
fn unparsable_height_is_rejected() {
    let f = fields(&[("model", "m"), ("width", "1"), ("height", "-1")]);
    assert_eq!(parse_request(&f), Err(RequestError::ParseError("height".to_string())));
}

#[test]
fn later_field_replaces_earlier() {
    let f = fields(&[("model", "a"), ("model", "b"), ("width", "1"), ("height", "2")]);
    assert_eq!(parse_request(&f).expect("job").model, "b");
}

#[test]
fn numbers_in_decimal() {
    assert_eq!(parse_u32(&"0".to_string()), Some(0));
    assert_eq!(parse_u32(&"+42".to_string()), Some(42));
    assert_eq!(parse_u32(&"4294967295".to_string()), Some(u32::MAX));
    assert_eq!(parse_u32(&"4294967296".to_string()), None);
    assert_eq!(parse_u32(&"".to_string()), None);
    assert_eq!(parse_u32(&"+".to_string()), None);
    assert_eq!(parse_u32(&"1 2".to_string()), None);
    for s in ["7", "+7", "0042", "99999999999", "-3", "abc"] {
        assert_eq!(parse_u32(&s.to_string()), s.parse::<u32>().ok());
    }
}

#[test]
fn texture_prefix_only() {
    let f = fields(&[("model", "m"), ("width", "1"), ("height", "1"), ("textures", "t"), ("texture", "u"), ("mytexture", "v"), ("textur", "w")]);
    assert_eq!(parse_request(&f).expect("job").textures, vec!["t".to_string(), "u".to_string()]);
}
