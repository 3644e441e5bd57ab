use tinyrenderer::la::SCALE;
use tinyrenderer::obj::Obj;
use tinyrenderer::obj::ObjError;

fn parse(text: &str) -> Result<Obj, ObjError> {
    Obj::parse(&text.as_bytes().to_vec())
}

#[test]
fn triangle_mesh_parses_positions_and_face() {
    let obj = parse("v 0 0 0\nv 1 0 0\nv 0 1 0\nf 1/1/1 2/1/1 3/1/1").unwrap();
    assert_eq!(obj.vs.len(), 3);
    assert_eq!(obj.fs.len(), 1);
    assert_eq!(obj.vs[0].get(0, 0), 0);
    assert_eq!(obj.vs[1].get(0, 0), SCALE);
    assert_eq!(obj.vs[1].get(0, 1), 0);
    assert_eq!(obj.vs[2].get(0, 1), SCALE);
    let f = &obj.fs[0];
    assert_eq!(f.vs.len(), 3);
    assert_eq!(f.vs[0].vi, 1);
    assert_eq!(f.vs[1].vi, 2);
    assert_eq!(f.vs[2].vi, 3);
    assert_eq!(f.vs[0].vti, 1);
    assert_eq!(f.vs[0].vni, 1);
}

#[test]
fn decimals_are_fixed_point_with_six_digits() {
    let obj = parse("v 0.5 -0.25 1.0").unwrap();
    assert_eq!(obj.vs[0].get(0, 0), 500_000);
    assert_eq!(obj.vs[0].get(0, 1), -250_000);
    assert_eq!(obj.vs[0].get(0, 2), SCALE);
}

#[test]
fn seventh_fractional_digit_is_truncated() {
    let obj = parse("v 0.1234567 +.5 5.").unwrap();
    assert_eq!(obj.vs[0].get(0, 0), 123_456);
    assert_eq!(obj.vs[0].get(0, 1), 500_000);
    assert_eq!(obj.vs[0].get(0, 2), 5 * SCALE);
}

#[test]
fn unrecognized_lines_are_skipped() {
    let obj = parse("# a comment\no name\nv 1 2 3\ns off\nvx 9 9 9").unwrap();
    assert_eq!(obj.vs.len(), 1);
    assert_eq!(obj.fs.len(), 0);
}

#[test]
fn texture_and_normal_lines_are_carried() {
    assert!(parse("vt 0.5 0.25\nvn 0 0 1").is_ok());
    assert_eq!(parse("vt 0.5").unwrap_err(), ObjError::Malformed);
    assert_eq!(parse("vn 0 0").unwrap_err(), ObjError::Malformed);
}

#[test]
fn empty_text_gives_empty_mesh() {
    let obj = parse("").unwrap();
    assert_eq!(obj.vs.len(), 0);
    assert_eq!(obj.fs.len(), 0);
}

#[test]
fn carriage_returns_are_tolerated() {
    let obj = parse("v 0 0 0\r\nv 1 0 0\r\n").unwrap();
    assert_eq!(obj.vs.len(), 2);
}

#[test]
fn non_numeric_token_is_a_hard_failure() {
    assert_eq!(parse("v a b c").unwrap_err(), ObjError::Malformed);
    assert_eq!(parse("v 1 2 3\nv 1.5.2 0 0").unwrap_err(), ObjError::Malformed);
    assert_eq!(parse("v . 0 0").unwrap_err(), ObjError::Malformed);
}

#[test]
fn missing_token_is_a_hard_failure() {
    assert_eq!(parse("v 1 2").unwrap_err(), ObjError::Malformed);
    assert_eq!(parse("f 1/1/1 2/1/1").unwrap_err(), ObjError::Malformed);
}

#[test]
fn missing_face_index_component_is_a_hard_failure() {
    assert_eq!(parse("f 1/1 2/1/1 3/1/1").unwrap_err(), ObjError::Malformed);
    assert_eq!(parse("f 1//1 2/1/1 3/1/1").unwrap_err(), ObjError::Malformed);
}

#[test]
fn oversized_whole_part_is_refused() {
    assert_eq!(parse("v 9000000000001 0 0").unwrap_err(), ObjError::Malformed);
    assert!(parse("v 9000000000000 0 0").is_ok());
}

#[test]
fn extra_tokens_are_ignored() {
    let obj = parse("v 1 2 3 4 5\nv 0 0 0\nv 0 0 0\nf 1/1/1 2/1/1 3/1/1 9/9/9").unwrap();
    assert_eq!(obj.vs.len(), 3);
    assert_eq!(obj.fs.len(), 1);
    assert_eq!(obj.fs[0].vs.len(), 3);
}

#[test]
fn face_group_extra_slash_parts_are_ignored() {
    let obj = parse("v 0 0 0\nf 1/2/3/4 1/2/3 1/2/3").unwrap();
    assert_eq!(obj.fs[0].vs[0].vi, 1);
    assert_eq!(obj.fs[0].vs[0].vti, 2);
    assert_eq!(obj.fs[0].vs[0].vni, 3);
}
