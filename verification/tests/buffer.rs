use wireframe::{Buffer, Coord2D, BACKGROUND, DRAWN};

fn drawn_cells(buffer: &Buffer) -> Vec<Coord2D> {
    let mut cells = Vec::new();
    for y in -2..=(buffer.rows() as isize + 2) {
        for x in -2..=(buffer.columns() as isize + 2) {
            if buffer.is_drawn((x, y)) {
                cells.push((x, y));
            }
        }
    }
    cells
}

fn sorted(mut cells: Vec<Coord2D>) -> Vec<Coord2D> {
    cells.sort();
    cells
}

#[test]
fn glyphs_are_dot_and_hash() {
    assert_eq!(BACKGROUND, '.');
    assert_eq!(DRAWN, '#');
}

#[test]
fn new_buffer_is_blank() {
    let buffer = Buffer::new(50, 200);
    assert_eq!(buffer.rows(), 50);
    assert_eq!(buffer.columns(), 200);
    assert!(!buffer.ever_rendered());
    assert!(drawn_cells(&buffer).is_empty());
}

#[test]
fn plot_marks_one_cell() {
    let mut buffer = Buffer::new(4, 6);
    buffer.plot((2, 3));
    assert_eq!(drawn_cells(&buffer), vec![(2, 3)]);
}

#[test]
fn plot_flips_rows_so_that_y_grows_upward() {
    let mut buffer = Buffer::new(3, 4);
    buffer.plot((0, 3));
    buffer.plot((3, 1));
    assert_eq!(buffer.render_buffer().image, "#...\n....\n...#\n");
}

#[test]
fn plot_drops_cells_off_the_grid() {
    let mut buffer = Buffer::new(3, 4);
    buffer.plot((0, 0));
    buffer.plot((0, 4));
    buffer.plot((-1, 2));
    buffer.plot((4, 2));
    buffer.plot((isize::MAX, isize::MAX));
    buffer.plot((isize::MIN, isize::MIN));
    assert!(drawn_cells(&buffer).is_empty());
    assert_eq!(buffer.render_buffer().image, "....\n....\n....\n");
}

#[test]
fn plot_twice_is_plot_once() {
    let mut buffer = Buffer::new(3, 4);
    buffer.plot((1, 1));
    buffer.plot((1, 1));
    assert_eq!(drawn_cells(&buffer), vec![(1, 1)]);
}

#[test]
fn plot_all_marks_each_point() {
    let mut buffer = Buffer::new(3, 4);
    buffer.plot_all(&vec![(0, 1), (9, 9), (1, 2), (0, 1), (3, 3)]);
    assert_eq!(drawn_cells(&buffer), vec![(0, 1), (1, 2), (3, 3)]);
}

#[test]
fn plot_all_of_nothing_changes_nothing() {
    let mut buffer = Buffer::new(3, 4);
    buffer.plot((2, 2));
    buffer.plot_all(&Vec::new());
    assert_eq!(drawn_cells(&buffer), vec![(2, 2)]);
}

#[test]
fn clear_resets_every_cell() {
    let mut buffer = Buffer::new(5, 5);
    buffer.draw_line((0, 1), (4, 5));
    assert_eq!(drawn_cells(&buffer).len(), 5);
    buffer.clear();
    assert!(drawn_cells(&buffer).is_empty());
    assert_eq!(buffer.rows(), 5);
    assert_eq!(buffer.columns(), 5);
}

#[test]
fn clear_keeps_the_rendered_flag() {
    let mut buffer = Buffer::new(2, 2);
    buffer.render_buffer();
    buffer.clear();
    assert!(buffer.ever_rendered());
}

#[test]
fn horizontal_line_marks_exactly_its_six_cells() {
    let mut buffer = Buffer::new(8, 10);
    buffer.draw_line((0, 1), (5, 1));
    assert_eq!(drawn_cells(&buffer), vec![(0, 1), (1, 1), (2, 1), (3, 1), (4, 1), (5, 1)]);
}

#[test]
fn line_along_y_zero_lies_below_the_bottom_row() {
    let mut buffer = Buffer::new(8, 10);
    buffer.draw_line((0, 0), (5, 0));
    assert!(drawn_cells(&buffer).is_empty());
}

#[test]
fn diagonal_line_marks_a_connected_path() {
    let mut buffer = Buffer::new(8, 10);
    buffer.draw_line((1, 1), (6, 6));
    let cells = drawn_cells(&buffer);
    assert_eq!(cells, vec![(1, 1), (2, 2), (3, 3), (4, 4), (5, 5), (6, 6)]);
    for pair in cells.windows(2) {
        assert!((pair[1].0 - pair[0].0).abs() <= 1);
        assert!((pair[1].1 - pair[0].1).abs() <= 1);
    }
}

#[test]
fn diagonal_from_the_origin_loses_only_its_first_cell() {
    let mut buffer = Buffer::new(8, 10);
    buffer.draw_line((0, 0), (5, 5));
    assert_eq!(drawn_cells(&buffer), vec![(1, 1), (2, 2), (3, 3), (4, 4), (5, 5)]);
}

#[test]
fn line_includes_both_endpoints() {
    let mut buffer = Buffer::new(20, 20);
    buffer.draw_line((3, 17), (15, 2));
    assert!(buffer.is_drawn((3, 17)));
    assert!(buffer.is_drawn((15, 2)));
}

#[test]
fn line_of_one_point_marks_that_cell() {
    let mut buffer = Buffer::new(4, 4);
    buffer.draw_line((2, 2), (2, 2));
    assert_eq!(drawn_cells(&buffer), vec![(2, 2)]);
}

#[test]
fn line_leaving_the_grid_is_cut_at_the_edge() {
    let mut buffer = Buffer::new(3, 4);
    buffer.draw_line((2, 2), (9, 2));
    assert_eq!(drawn_cells(&buffer), vec![(2, 2), (3, 2)]);
    buffer.draw_line((-5, 7), (5, -3));
    assert_eq!(sorted(drawn_cells(&buffer)), vec![(0, 2), (1, 1), (2, 2), (3, 2)]);
}

#[test]
fn line_far_from_the_grid_marks_nothing() {
    let mut buffer = Buffer::new(3, 4);
    buffer.draw_line((100, 100), (120, 90));
    assert!(drawn_cells(&buffer).is_empty());
}

#[test]
fn drawing_keeps_what_was_drawn_before() {
    let mut buffer = Buffer::new(5, 5);
    buffer.draw_line((0, 1), (4, 1));
    buffer.draw_line((0, 1), (0, 5));
    let cells = sorted(drawn_cells(&buffer));
    assert_eq!(
        cells,
        vec![(0, 1), (0, 2), (0, 3), (0, 4), (0, 5), (1, 1), (2, 1), (3, 1), (4, 1)]
    );
}

#[test]
fn drawing_order_does_not_matter() {
    let mut first = Buffer::new(9, 9);
    first.draw_line((0, 1), (8, 9));
    first.draw_line((8, 1), (0, 9));
    let mut second = Buffer::new(9, 9);
    second.draw_line((8, 1), (0, 9));
    second.draw_line((0, 1), (8, 9));
    assert_eq!(first.render_buffer().image, second.render_buffer().image);
}

#[test]
fn polygon_draws_a_closed_rectangle_outline() {
    let mut buffer = Buffer::new(5, 5);
    buffer.draw_polygon(vec![(1, 1), (3, 1), (3, 3), (1, 3)]);
    assert_eq!(
        sorted(drawn_cells(&buffer)),
        vec![(1, 1), (1, 2), (1, 3), (2, 1), (2, 3), (3, 1), (3, 2), (3, 3)]
    );
    assert!(!buffer.is_drawn((2, 2)));
}

#[test]
fn polygon_closes_from_the_last_vertex_to_the_first() {
    let mut buffer = Buffer::new(6, 6);
    buffer.draw_polygon(vec![(1, 1), (5, 1), (5, 5)]);
    for step in 1..=5 {
        assert!(buffer.is_drawn((step, step)));
    }
}

#[test]
fn rectangle_at_the_origin_keeps_only_its_visible_part() {
    let mut buffer = Buffer::new(5, 5);
    buffer.draw_polygon(vec![(0, 0), (2, 0), (2, 2), (0, 2)]);
    assert_eq!(sorted(drawn_cells(&buffer)), vec![(0, 1), (0, 2), (1, 2), (2, 1), (2, 2)]);
}

#[test]
fn polygon_of_one_vertex_marks_that_cell() {
    let mut buffer = Buffer::new(3, 3);
    buffer.draw_polygon(vec![(1, 2)]);
    assert_eq!(drawn_cells(&buffer), vec![(1, 2)]);
}

#[test]
fn polygon_of_two_vertices_is_a_segment() {
    let mut buffer = Buffer::new(3, 5);
    buffer.draw_polygon(vec![(0, 2), (4, 2)]);
    assert_eq!(drawn_cells(&buffer), vec![(0, 2), (1, 2), (2, 2), (3, 2), (4, 2)]);
}

#[test]
fn frame_spans_rows_one_to_rows_and_columns_zero_to_columns_less_one() {
    let buffer = Buffer::new(50, 200);
    assert!(buffer.in_frame((0, 1)));
    assert!(buffer.in_frame((199, 50)));
    assert!(buffer.in_frame((100, 25)));
    assert!(!buffer.in_frame((0, 0)));
    assert!(!buffer.in_frame((0, 51)));
    assert!(!buffer.in_frame((200, 25)));
    assert!(!buffer.in_frame((-1, 25)));
}

#[test]
fn apex_of_the_pyramid_lands_in_the_top_row() {
    let mut buffer = Buffer::new(50, 200);
    assert!(buffer.in_frame((100, 50)));
    buffer.plot((100, 50));
    assert!(buffer.is_drawn((100, 50)));
    let image = buffer.render_buffer().image;
    let first_line = image.lines().next().unwrap();
    assert_eq!(first_line.len(), 200);
    assert_eq!(first_line.find('#'), Some(100));
    assert_eq!(image.matches('#').count(), 1);
}

#[test]
fn image_has_one_line_per_row() {
    let mut buffer = Buffer::new(2, 3);
    assert_eq!(buffer.render_buffer().image, "...\n...\n");
    buffer.plot((1, 2));
    assert_eq!(buffer.render_buffer().image, ".#.\n...\n");
    buffer.plot((0, 1));
    assert_eq!(buffer.render_buffer().image, ".#.\n#..\n");
}

#[test]
fn image_of_the_full_size_frame() {
    let mut buffer = Buffer::new(50, 200);
    let image = buffer.render_buffer().image;
    assert_eq!(image.len(), 50 * 201);
    assert_eq!(image.lines().count(), 50);
    for line in image.lines() {
        assert_eq!(line, ".".repeat(200));
    }
}

#[test]
fn image_of_an_empty_grid_is_empty() {
    assert_eq!(Buffer::new(0, 7).render_buffer().image, "");
    assert_eq!(Buffer::new(3, 0).render_buffer().image, "\n\n\n");
}

#[test]
fn plot_on_an_empty_grid_is_dropped() {
    let mut buffer = Buffer::new(0, 0);
    buffer.plot((0, 0));
    buffer.plot((0, 1));
    buffer.draw_line((-3, -3), (3, 3));
    assert!(drawn_cells(&buffer).is_empty());
}

#[test]
fn first_render_leaves_the_cursor_where_it_is() {
    let mut buffer = Buffer::new(50, 200);
    let frame = buffer.render_buffer();
    assert_eq!(frame.cursor_up, None);
    assert!(buffer.ever_rendered());
}

#[test]
fn later_renders_move_the_cursor_up_by_rows_plus_one() {
    let mut buffer = Buffer::new(50, 200);
    buffer.render_buffer();
    assert_eq!(buffer.render_buffer().cursor_up, Some(51));
    assert_eq!(buffer.render_buffer().cursor_up, Some(51));
}

#[test]
fn tallest_buffer_moves_the_cursor_up_by_256() {
    let mut buffer = Buffer::new(255, 1);
    buffer.render_buffer();
    assert_eq!(buffer.render_buffer().cursor_up, Some(256));
}

#[test]
fn render_does_not_change_the_cells() {
    let mut buffer = Buffer::new(4, 4);
    buffer.draw_line((0, 1), (3, 4));
    let before = drawn_cells(&buffer);
    let first = buffer.render_buffer().image;
    let second = buffer.render_buffer().image;
    assert_eq!(first, second);
    assert_eq!(drawn_cells(&buffer), before);
}

#[test]
fn largest_buffer_holds_its_corners() {
    let mut buffer = Buffer::new(255, 255);
    buffer.plot((0, 1));
    buffer.plot((254, 255));
    buffer.plot((255, 255));
    buffer.plot((254, 256));
    assert_eq!(drawn_cells(&buffer), vec![(0, 1), (254, 255)]);
    let image = buffer.render_buffer().image;
    assert_eq!(image.len(), 255 * 256);
    assert_eq!(image.find('#'), Some(254));
    assert_eq!(image.rfind('#'), Some(254 * 256));
}
