use flashback::document::{color_text, view_box, ViewBox};
use flashback::geom::{Line, Point};
use flashback::path::{path_data, PathCommand, StyledPath};
use flashback::shape::{
    DefineShape, Edge, FillStyle, Rect, Rgba, Shape, ShapeRecord, ShapeStyles, StyleChange,
};

fn p(x: i32, y: i32) -> Point {
    Point { x, y }
}

fn line(a: Point, b: Point) -> Line {
    Line { from: a, bezier_control: None, to: b }
}

fn edge(dx: i32, dy: i32) -> ShapeRecord {
    ShapeRecord::Edge(Edge { delta: p(dx, dy), control_delta: None })
}

fn change(
    move_to: Option<Point>,
    left: Option<usize>,
    right: Option<usize>,
    line_style: Option<usize>,
) -> ShapeRecord {
    ShapeRecord::StyleChange(StyleChange {
        move_to,
        left_fill: left,
        right_fill: right,
        line_style,
        new_styles: None,
    })
}

fn red() -> FillStyle {
    FillStyle::Solid(Rgba { r: 0xff, g: 0, b: 0, a: 0xff })
}

fn shape_def(fills: Vec<FillStyle>, records: Vec<ShapeRecord>) -> DefineShape {
    DefineShape {
        id: 1,
        bounds: Rect { x_min: 0, x_max: 100, y_min: -10, y_max: 87 },
        initial_styles: ShapeStyles { fill: fills, line: vec![] },
        records,
    }
}

#[test]
fn point_arithmetic_and_pairs() {
    let a = p(3, -4);
    assert_eq!(a.x_y(), (3, -4));
    assert_eq!(a.add(p(1, 1)), p(4, -3));
    assert_eq!(a.sub(p(1, 1)), p(2, -5));
    assert_eq!(p(i32::MAX, 0).add(p(1, 0)), p(i32::MIN, 0));
}

#[test]
fn flip_keeps_control_point() {
    let l = Line { from: p(0, 0), bezier_control: Some(p(5, 5)), to: p(10, 0) };
    let f = l.flip_direction();
    assert_eq!(f, Line { from: p(10, 0), bezier_control: Some(p(5, 5)), to: p(0, 0) });
    assert_eq!(f.flip_direction(), l);
}

#[test]
fn map_points_moves_every_point() {
    let l = Line { from: p(0, 0), bezier_control: Some(p(5, 5)), to: p(10, 0) };
    let m = l.map_points(|q| q.add(p(1, 2)));
    assert_eq!(m, Line { from: p(1, 2), bezier_control: Some(p(6, 7)), to: p(11, 2) });
    assert_eq!(l.translate(p(1, 2)), m);
}

#[test]
fn untangle_joins_contiguous_edges() {
    let mut sp = StyledPath::new(0u8);
    sp.path = vec![line(p(0, 0), p(1, 0)), line(p(2, 0), p(3, 0)), line(p(1, 0), p(2, 0))];
    sp.untangle_path();
    assert_eq!(
        sp.path,
        vec![line(p(0, 0), p(1, 0)), line(p(1, 0), p(2, 0)), line(p(2, 0), p(3, 0))]
    );
}

#[test]
fn untangle_jumps_only_when_nothing_continues() {
    let mut sp = StyledPath::new(0u8);
    sp.path = vec![
        line(p(0, 0), p(1, 0)),
        line(p(5, 5), p(6, 6)),
        line(p(1, 0), p(0, 0)),
        line(p(6, 6), p(5, 5)),
    ];
    sp.untangle_path();
    assert_eq!(
        sp.path,
        vec![
            line(p(0, 0), p(1, 0)),
            line(p(1, 0), p(0, 0)),
            line(p(5, 5), p(6, 6)),
            line(p(6, 6), p(5, 5)),
        ]
    );
    let breaks = sp.path.windows(2).filter(|w| w[0].to != w[1].from).count();
    assert_eq!(breaks, 1);
}

#[test]
fn untangle_prefers_later_continuation() {
    // At (4,4) edges 1 and 4 both continue edge 3; the one after it wins.
    let mut sp = StyledPath::new(0u8);
    let e0 = line(p(0, 0), p(2, 2));
    let e1 = line(p(4, 4), p(7, 7));
    let e2 = line(p(8, 8), p(9, 9));
    let e3 = line(p(2, 2), p(4, 4));
    let e4 = line(p(4, 4), p(5, 5));
    sp.path = vec![e0, e1, e2, e3, e4];
    sp.untangle_path();
    assert_eq!(sp.path, vec![e0, e3, e4, e1, e2]);
}

#[test]
fn empty_shape_has_no_paths() {
    let def = shape_def(vec![], vec![]);
    let shape = Shape::from_def(&def);
    assert!(shape.fill.is_empty());
    assert!(shape.stroke.is_empty());
    let mut no_styles = shape_def(vec![red()], vec![]);
    no_styles.records = vec![change(Some(p(0, 0)), None, None, None), edge(10, 0)];
    let shape = Shape::from_def(&no_styles);
    assert_eq!(shape.fill.len(), 1);
    assert!(shape.fill[0].path.is_empty());
    assert_eq!(path_data(&shape.fill[0].path, true), None);
}

#[test]
fn solid_triangle() {
    let def = shape_def(
        vec![red()],
        vec![
            change(Some(p(0, 0)), None, Some(1), None),
            edge(100, 0),
            edge(-50, 87),
            edge(-50, -87),
        ],
    );
    let shape = Shape::from_def(&def);
    assert_eq!(shape.fill.len(), 1);
    match shape.fill[0].style {
        FillStyle::Solid(c) => assert_eq!(color_text(c), "#ff0000"),
        _ => panic!("not a solid fill"),
    }
    assert_eq!(
        shape.fill[0].path,
        vec![
            line(p(0, 0), p(100, 0)),
            line(p(100, 0), p(50, 87)),
            line(p(50, 87), p(0, 0)),
        ]
    );
    assert_eq!(
        path_data(&shape.fill[0].path, true).unwrap(),
        vec![
            PathCommand::MoveTo(p(0, 0)),
            PathCommand::LineTo(p(100, 0)),
            PathCommand::LineTo(p(50, 87)),
            PathCommand::Close,
        ]
    );
    assert_eq!(shape.center, p(50, 38));
}

#[test]
fn left_fill_is_reversed_and_flipped() {
    let def = shape_def(
        vec![red(), FillStyle::Bitmap(4)],
        vec![
            change(Some(p(0, 0)), Some(1), Some(2), None),
            edge(100, 0),
            edge(-50, 87),
            edge(-50, -87),
        ],
    );
    let shape = Shape::from_def(&def);
    let right = &shape.fill[1].path;
    let left = &shape.fill[0].path;
    let expected: Vec<Line> = right.iter().rev().map(|l| l.flip_direction()).collect();
    assert_eq!(*left, expected);
    assert_eq!(right.len(), 3);
}

#[test]
fn new_styles_shift_indices_and_out_of_range_is_none() {
    let mut records = vec![change(Some(p(0, 0)), None, Some(1), None), edge(10, 0)];
    records.push(ShapeRecord::StyleChange(StyleChange {
        move_to: Some(p(50, 50)),
        left_fill: None,
        right_fill: Some(1),
        line_style: Some(3),
        new_styles: Some(ShapeStyles { fill: vec![FillStyle::Bitmap(9)], line: vec![] }),
    }));
    records.push(edge(0, 10));
    records.push(change(None, None, Some(7), None));
    records.push(edge(5, 5));
    let def = shape_def(vec![red()], records);
    let shape = Shape::from_def(&def);
    assert_eq!(shape.fill.len(), 2);
    assert_eq!(shape.fill[0].path, vec![line(p(0, 0), p(10, 0))]);
    assert_eq!(shape.fill[1].path, vec![line(p(50, 50), p(50, 60))]);
    assert!(matches!(shape.fill[1].style, FillStyle::Bitmap(9)));
    assert!(shape.stroke.is_empty());
}

#[test]
fn path_data_moves_at_breaks_and_curves() {
    let path = vec![
        Line { from: p(0, 0), bezier_control: Some(p(5, 5)), to: p(10, 0) },
        line(p(20, 20), p(30, 20)),
    ];
    assert_eq!(
        path_data(&path, true).unwrap(),
        vec![
            PathCommand::MoveTo(p(0, 0)),
            PathCommand::QuadraticTo(p(5, 5), p(10, 0)),
            PathCommand::MoveTo(p(20, 20)),
            PathCommand::LineTo(p(30, 20)),
        ]
    );
    let closed = vec![line(p(0, 0), p(1, 0)), line(p(1, 0), p(0, 0))];
    assert_eq!(path_data(&closed, false).unwrap().len(), 3);
    assert_eq!(
        path_data(&closed, true).unwrap(),
        vec![PathCommand::MoveTo(p(0, 0)), PathCommand::LineTo(p(1, 0)), PathCommand::Close]
    );
    let curved = vec![
        line(p(0, 0), p(1, 0)),
        Line { from: p(1, 0), bezier_control: Some(p(1, 1)), to: p(0, 0) },
    ];
    assert_eq!(path_data(&curved, true).unwrap().len(), 4);
    let two_parts = vec![line(p(5, 5), p(0, 0)), line(p(3, 3), p(5, 5))];
    assert_eq!(
        path_data(&two_parts, true).unwrap(),
        vec![
            PathCommand::MoveTo(p(5, 5)),
            PathCommand::LineTo(p(0, 0)),
            PathCommand::MoveTo(p(3, 3)),
            PathCommand::LineTo(p(5, 5)),
            PathCommand::Close,
        ]
    );
}

#[test]
fn color_texts() {
    assert_eq!(color_text(&Rgba { r: 0x0a, g: 0xbc, b: 0x01, a: 255 }), "#0abc01");
    assert_eq!(color_text(&Rgba { r: 1, g: 22, b: 255, a: 128 }), "rgba(1, 22, 255, 128)");
}

#[test]
fn view_box_of_frame_rect() {
    let r = Rect { x_min: -100, x_max: 11000, y_min: 20, y_max: 8000 };
    assert_eq!(view_box(r), ViewBox { x: -100, y: 20, width: 11100, height: 7980 });
    let wide = Rect { x_min: i32::MIN, x_max: i32::MAX, y_min: 0, y_max: 0 };
    assert_eq!(view_box(wide).width, u32::MAX as i64);
}
