use rtlib::canvas::Canvas;
use rtlib::coord_2d::Coord2D;
use rtlib::ppm::{ascii_data, ascii_header, channel_byte, encode_ascii};

type Rgb = [f64; 3];

fn channels_of(canvas: &Canvas<Rgb>) -> Vec<u8> {
    let mut out = Vec::new();
    for (_, color) in canvas.iter() {
        for v in color {
            out.push(channel_byte((v * 255.0).round() as i32));
        }
    }
    out
}

#[test]
fn draw_on_canvas() {
    let mut canvas = Canvas::new(Coord2D::new(10, 10), [0.0, 0.0, 0.0]);
    let red = [1.0, 0.0, 0.0];
    let black = [0.0, 0.0, 0.0];
    let changed_coord = Coord2D::new(3, 2);
    *canvas.at_mut(changed_coord) = red;
    canvas.iter().iter().for_each(|(coord, color)| {
        assert_eq!(
            *color,
            match coord {
                c if *c == changed_coord => red,
                _ => black,
            }
        );
    });
}

#[test]
fn write_header() {
    let canvas = Canvas::new(Coord2D::new(5, 3), [0.0, 0.0, 0.0]);
    let data = ascii_header(canvas.get_dim());
    let conv = std::str::from_utf8(&data);
    assert!(conv.is_ok());
    let str = conv.unwrap();
    assert_eq!(str, "P3\n5 3\n255\n");
}

#[test]
fn write_data() {
    let mut canvas = Canvas::new(Coord2D::new(5, 3), [0.0, 0.0, 0.0]);
    canvas.set_at(Coord2D::new(0, 0), [1.5, 0.0, 0.0]);
    canvas.set_at(Coord2D::new(2, 1), [0.0, 0.5, 0.0]);
    canvas.set_at(Coord2D::new(4, 2), [-0.5, 0.0, 1.0]);
    let data = ascii_data(canvas.get_dim(), &channels_of(&canvas));
    let conv = std::str::from_utf8(&data);
    assert!(conv.is_ok());
    let str = conv.unwrap();
    assert_eq!(
        str,
        "255 0 0 0 0 0 0 0 0 0 0 0 0 0 0\n0 0 0 0 0 0 0 128 0 0 0 0 0 0 0\n0 0 0 0 \
        0 0 0 0 0 0 0 0 0 0 255\n"
    );
}

#[test]
fn write_data_long_lines() {
    let mut canvas = Canvas::new(Coord2D::new(10, 2), [0.0, 0.0, 0.0]);
    canvas.map_cells(|_, _| [1.0, 0.8, 0.6]);
    let data = ascii_data(canvas.get_dim(), &channels_of(&canvas));
    let conv = std::str::from_utf8(&data);
    assert!(conv.is_ok());
    let str = conv.unwrap();
    assert_eq!(
        str,
        "255 204 153 255 204 153 255 204 153 255 204 153 255 204 153 255 204\n153 \
    255 204 153 255 204 153 255 204 153 255 204 153\n255 204 153 255 204 153 255 204 153 255 \
    204 153 255 204 153 255 204\n153 255 204 153 255 204 153 255 204 153 255 204 153\n"
    );
}

#[test]
fn write_ppm() {
    let canvas = Canvas::new(Coord2D::new(5, 3), [0.0, 0.0, 0.0]);
    let data = encode_ascii(canvas.get_dim(), &channels_of(&canvas));
    let conv = std::str::from_utf8(&data);
    assert!(conv.is_ok());
    let str = conv.unwrap();
    assert_eq!(str.chars().rev().next().unwrap(), '\n');
}

#[test]
fn fresh_canvas_is_uniform() {
    let canvas = Canvas::new(Coord2D::new(23, 42), 7u32);
    assert_eq!(canvas.size(), 966);
    assert_eq!(canvas.get_dim(), Coord2D::new(23, 42));
    assert!(canvas.iter().iter().all(|(_, c)| *c == 7));
    assert_eq!(canvas.at(Coord2D::new(22, 41)), 7);
}

#[test]
fn write_then_read_cell() {
    let mut canvas = Canvas::new(Coord2D::new(4, 3), 0u8);
    canvas.set_at(Coord2D::new(3, 1), 9);
    assert_eq!(canvas.at(Coord2D::new(3, 1)), 9);
    assert_eq!(canvas.get(7), 9);
    assert_eq!(canvas.at(Coord2D::new(1, 3 - 1)), 0);
    canvas.set(0, 5);
    assert_eq!(canvas.at(Coord2D::new(0, 0)), 5);
    *canvas.at_mut(Coord2D::new(2, 2)) += 4;
    assert_eq!(canvas.get(10), 4);
    let cells: Vec<u8> = canvas.iter().iter().map(|(_, c)| *c).collect();
    assert_eq!(cells, vec![5, 0, 0, 0, 0, 0, 0, 9, 0, 0, 4, 0]);
}

#[test]
fn iteration_is_row_major() {
    let mut canvas = Canvas::new(Coord2D::new(2, 2), 0.0f64);
    canvas.set_at(Coord2D::new(0, 0), 0.1);
    canvas.set_at(Coord2D::new(1, 0), 0.2);
    canvas.set_at(Coord2D::new(0, 1), 0.3);
    canvas.set_at(Coord2D::new(1, 1), 0.4);
    let first = canvas.iter();
    assert_eq!(
        first,
        vec![
            (Coord2D::new(0, 0), 0.1),
            (Coord2D::new(1, 0), 0.2),
            (Coord2D::new(0, 1), 0.3),
            (Coord2D::new(1, 1), 0.4)
        ]
    );
    assert_eq!(canvas.iter(), first);
}

#[test]
fn empty_canvas() {
    let canvas = Canvas::new(Coord2D::new(0, 5), 1u8);
    assert_eq!(canvas.size(), 0);
    assert!(canvas.iter().is_empty());
}

#[test]
fn map_cells_in_row_major_order() {
    let mut canvas = Canvas::new(Coord2D::new(2, 2), 0.0f64);
    canvas.set_at(Coord2D::new(0, 0), 0.1);
    canvas.set_at(Coord2D::new(1, 0), 0.2);
    canvas.set_at(Coord2D::new(0, 1), 0.3);
    canvas.set_at(Coord2D::new(1, 1), 0.4);
    canvas.map_cells(|_, v| v * 2.0);
    let values: Vec<f64> = canvas.iter().iter().map(|(_, v)| *v).collect();
    assert_eq!(values, vec![0.2, 0.4, 0.6, 0.8]);
    let mut indices = Canvas::new(Coord2D::new(3, 2), 0usize);
    indices.map_cells(|c, _| c.x + 10 * c.y);
    let values: Vec<usize> = indices.iter().iter().map(|(_, v)| *v).collect();
    assert_eq!(values, vec![0, 1, 2, 10, 11, 12]);
    let mut one = Canvas::new(Coord2D::new(1, 1), 1u8);
    *one.get_mut(0) = 3;
    assert_eq!(one.get(0), 3);
}
