use neuralnet::dataset::{check_header, decode_labels, image_bytes, read_be_u32, IMAGE_MAGIC, LABEL_MAGIC};
use neuralnet::matrix::Matrix;

#[test]
fn big_endian_numbers() {
    assert_eq!(2049, read_be_u32(&vec![0, 0, 8, 1], 0));
    assert_eq!(0x01020304, read_be_u32(&vec![9, 1, 2, 3, 4], 1));
}

#[test]
fn header_is_checked() {
    assert_eq!(Some(3), check_header(&vec![0, 0, 8, 1, 0, 0, 0, 3, 1, 2, 3], LABEL_MAGIC));
    assert_eq!(None, check_header(&vec![0, 0, 8, 1, 0, 0, 0, 3], IMAGE_MAGIC));
    assert_eq!(None, check_header(&vec![0, 0, 8, 1, 0, 0, 0], LABEL_MAGIC));
}

#[test]
fn labels_become_one_hot_columns() {
    let labels = decode_labels(&vec![0, 0, 8, 1, 0, 0, 0, 2, 3, 9], 0.0f32, 1.0f32).unwrap();
    assert_eq!(2, labels.len());
    let mut three = Matrix::<f32, 10, 1>::new();
    three.set(3, 0, 1.0);
    assert_eq!(three, labels[0]);
    assert_eq!(9, labels[1].max_index());
    assert_eq!(Some(&0.0), labels[1].get(3, 0));
}

#[test]
fn out_of_range_label_is_rejected() {
    assert!(decode_labels(&vec![0, 0, 8, 1, 0, 0, 0, 1, 10], 0i32, 1i32).is_none());
    assert!(decode_labels(&vec![0, 0, 8], 0i32, 1i32).is_none());
}

#[test]
fn images_are_cut_into_whole_chunks() {
    let bytes = vec![0, 0, 8, 3, 0, 0, 0, 2, 1, 2, 3, 4, 5, 6, 7];
    assert_eq!(vec![vec![1, 2, 3], vec![4, 5, 6]], image_bytes(&bytes, 3));
    assert!(image_bytes(&vec![1, 2], 3).is_empty());
}
