use beditor::chunks::{to_chunks, to_chunks_if_fits, ChunkError};
use resvg::tiny_skia::Pixmap;

#[test]
fn cuts_into_grid_with_remainders() {
    let pixmap = Pixmap::new(10, 7).unwrap();
    let (cols, rows, chunks) = to_chunks(&pixmap, 4).unwrap();
    assert_eq!((cols, rows), (3, 2));
    assert_eq!(chunks.len(), 6);
    let sizes: Vec<(u32, u32)> = chunks.iter().map(|c| (c.width(), c.height())).collect();
    assert_eq!(sizes, vec![(4, 4), (4, 4), (2, 4), (4, 3), (4, 3), (2, 3)]);
}

#[test]
fn chunks_copy_pixels() {
    let mut pixmap = Pixmap::new(3, 1).unwrap();
    pixmap.data_mut()[8..12].copy_from_slice(&[1, 2, 3, 4]);
    let (_, _, chunks) = to_chunks(&pixmap, 2).unwrap();
    assert_eq!(chunks[1].data(), &[1, 2, 3, 4]);
}

#[test]
fn side_multiple_of_max_len_fails() {
    let pixmap = Pixmap::new(8, 5).unwrap();
    assert_eq!(to_chunks(&pixmap, 4).err(), Some(ChunkError::InvalidRect));
    let pixmap = Pixmap::new(5, 8).unwrap();
    assert_eq!(to_chunks(&pixmap, 4).err(), Some(ChunkError::InvalidRect));
}

#[test]
fn small_image_is_one_chunk() {
    let pixmap = Pixmap::new(5, 3).unwrap();
    let (cols, rows, chunks) = to_chunks(&pixmap, 100).unwrap();
    assert_eq!((cols, rows, chunks.len()), (1, 1, 1));
    assert_eq!((chunks[0].width(), chunks[0].height()), (5, 3));
}

#[test]
fn every_chunk_holds_its_part_of_the_image() {
    let (w, h) = (5u32, 7u32);
    let mut pixmap = Pixmap::new(w, h).unwrap();
    for (k, byte) in pixmap.data_mut().iter_mut().enumerate() {
        *byte = (k % 251) as u8;
    }
    let max_len = 3usize;
    let (cols, rows, chunks) = to_chunks(&pixmap, max_len).unwrap();
    assert_eq!((cols, rows), (2, 3));
    for r in 0..rows {
        for c in 0..cols {
            let chunk = &chunks[r * cols + c];
            for i in 0..chunk.height() {
                for j in 0..chunk.width() {
                    let x = (c * max_len) as u32 + j;
                    let y = (r * max_len) as u32 + i;
                    assert_eq!(chunk.pixel(j, i), pixmap.pixel(x, y));
                }
            }
        }
    }
}

#[test]
fn checked_cut_agrees_on_small_images() {
    let pixmap = Pixmap::new(10, 7).unwrap();
    let (cols, rows, chunks) = to_chunks_if_fits(&pixmap, 4).unwrap().unwrap();
    assert_eq!((cols, rows, chunks.len()), (3, 2, 6));
    let pixmap = Pixmap::new(8, 5).unwrap();
    assert_eq!(to_chunks_if_fits(&pixmap, 4).unwrap().err(), Some(ChunkError::InvalidRect));
}

#[test]
fn checked_cut_refuses_data_that_is_not_whole_pixels() {
    let data = vec![0u8; 2 * 2 * 4 + 3];
    let odd = resvg::tiny_skia::PixmapRef::from_bytes(&data, 2, 2).unwrap().to_owned();
    assert!(to_chunks_if_fits(&odd, 1).is_none());
    let data = vec![7u8; 2 * 2 * 4 + 4];
    let padded = resvg::tiny_skia::PixmapRef::from_bytes(&data, 2, 2).unwrap().to_owned();
    let (cols, rows, chunks) = to_chunks_if_fits(&padded, 3).unwrap().unwrap();
    assert_eq!((cols, rows, chunks.len()), (1, 1, 1));
    assert_eq!(chunks[0].data(), &[7u8; 16][..]);
}
