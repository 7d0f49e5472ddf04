use std::collections::HashSet;

use fastpmr::counts::Counts;
use fastpmr::error::CustomError;
use fastpmr::model::{Allele, Site};
use fastpmr::reader::common::{
    block_size_for, decode_geno_code, decode_plink_code, first_out_of_range, geno_format, GenoFormat,
};
use fastpmr::reader::eigenstrat::{read_eigenstrat_ind, read_eigenstrat_snp};
use fastpmr::reader::header::parse_header_block;
use fastpmr::reader::packedancestrymap::{parse_variant_block, PackedAncestryMapReader};
use fastpmr::reader::plink::{count_plink_bim, decode_sample, read_plink_fam, PlinkBedReader};
use fastpmr::reader::transposed_packedancestrymap::TransposedPackedAncestryMapReader;
use fastpmr::reader::unpacked_eigenstrat::{decode_digit, EigenstratReader};

use Allele::{Alt, Het, Missing, Ref};

const ALT: u8 = 0b00;
const HET: u8 = 0b01;
const REF: u8 = 0b10;
const MISSING: u8 = 0b11;

fn names(n: usize) -> Vec<String> {
    (0..n).map(|i| format!("Sample{}", i + 1)).collect()
}

fn header(text: &str, size: usize) -> Vec<u8> {
    let mut block = vec![0u8; size];
    block[..text.len()].copy_from_slice(text.as_bytes());
    block
}

fn geno_file(variants: &[Vec<u8>]) -> Vec<u8> {
    let n = variants[0].len();
    let size = 48usize.max(n.div_ceil(4));
    let mut file = header(&format!("GENO {} {} 0 0", n, variants.len()), size);
    for v in variants {
        let mut block = vec![0u8; size];
        for (i, code) in v.iter().enumerate() {
            block[i / 4] |= code << (6 - 2 * (i % 4));
        }
        file.extend_from_slice(&block);
    }
    file
}

fn tgeno_file(variants: &[Vec<u8>]) -> Vec<u8> {
    let n = variants[0].len();
    let size = 48usize.max(variants.len().div_ceil(4));
    let mut file = header(&format!("TGENO {} {} 0 0", n, variants.len()), 48);
    for s in 0..n {
        let mut block = vec![0u8; size];
        for (v, codes) in variants.iter().enumerate() {
            block[v / 4] |= codes[s] << (6 - 2 * (v % 4));
        }
        file.extend_from_slice(&block);
    }
    file
}

fn read_all_packed(reader: &mut PackedAncestryMapReader, file: &[u8]) -> Vec<Site> {
    let size = reader.block_size();
    let mut offset = size;
    let mut sites = Vec::new();
    while reader.wants_block() {
        let block = &file[offset..offset + size];
        offset += size;
        if let Some(site) = reader.accept_block(block) {
            sites.push(site);
        }
    }
    sites
}

#[test]
fn packed_codes_map_to_alleles() {
    assert_eq!(decode_geno_code(ALT), Alt);
    assert_eq!(decode_geno_code(HET), Het);
    assert_eq!(decode_geno_code(REF), Ref);
    assert_eq!(decode_geno_code(MISSING), Missing);
}

#[test]
fn plink_codes_map_to_alleles() {
    assert_eq!(decode_plink_code(0b00), Ref);
    assert_eq!(decode_plink_code(0b01), Missing);
    assert_eq!(decode_plink_code(0b10), Het);
    assert_eq!(decode_plink_code(0b11), Alt);
}

#[test]
fn text_digits_map_to_alleles() {
    assert_eq!(decode_digit('0'), Some(Alt));
    assert_eq!(decode_digit('1'), Some(Het));
    assert_eq!(decode_digit('2'), Some(Ref));
    assert_eq!(decode_digit('9'), Some(Missing));
    assert_eq!(decode_digit('3'), None);
}

#[test]
fn packed_block_is_most_significant_pair_first() {
    let block = [0b00_01_10_11u8, 0b10_000000];
    assert_eq!(parse_variant_block(&block, 5, None), vec![Alt, Het, Ref, Missing, Ref]);
}

#[test]
fn plink_block_is_least_significant_pair_first() {
    let block = [0b11_10_01_00u8];
    assert_eq!(decode_sample(&block, 0), Ref);
    assert_eq!(decode_sample(&block, 1), Missing);
    assert_eq!(decode_sample(&block, 2), Het);
    assert_eq!(decode_sample(&block, 3), Alt);
}

#[test]
fn block_size_has_a_floor() {
    assert_eq!(block_size_for(2), 48);
    assert_eq!(block_size_for(193), 49);
    assert_eq!(block_size_for(400), 100);
}

#[test]
fn header_fields_are_read() {
    let h = parse_header_block(&header("GENO 12 34 abc def", 48), false).unwrap();
    assert_eq!((h.n_samples, h.n_variants), (12, 34));
    let h = parse_header_block(&header("  TGENO\t7 8 0 0", 48), true).unwrap();
    assert_eq!((h.n_samples, h.n_variants), (7, 8));
}

#[test]
fn header_problems_are_reported() {
    assert_eq!(parse_header_block(&[b'G'; 48], false).err(), Some(CustomError::PackedAncestryMapHeaderNullByte));
    let mut bad = header("GENO 1 2 3 4", 48);
    bad[1] = 0xff;
    assert_eq!(parse_header_block(&bad, false).err(), Some(CustomError::PackedAncestryMapHeaderUtf8));
    assert_eq!(
        parse_header_block(&header("GENO 1 2 3", 48), false).err(),
        Some(CustomError::PackedAncestryMapHeaderFields { n_fields: 4, expected: 5 })
    );
    assert_eq!(parse_header_block(&header("TGENO 1 2 3 4", 48), false).err(), Some(CustomError::PackedAncestryMapHeaderGeno));
    assert_eq!(parse_header_block(&header("GENO 1 2 3 4", 48), true).err(), Some(CustomError::PackedAncestryMapHeaderTgeno));
    assert_eq!(parse_header_block(&header("GENO x 2 3 4", 48), false).err(), Some(CustomError::PackedAncestryMapHeaderN));
    assert_eq!(parse_header_block(&header("GENO 1 -2 3 4", 48), false).err(), Some(CustomError::PackedAncestryMapHeaderV));
}

#[test]
fn packed_reader_streams_kept_variants() {
    let variants = vec![vec![REF, ALT, HET], vec![MISSING, REF, REF], vec![ALT, ALT, ALT]];
    let file = geno_file(&variants);
    let mut reader = PackedAncestryMapReader::open(names(3), 3, &file, None, None).unwrap();
    assert_eq!(reader.n_sites(), 3);
    assert_eq!(reader.samples(), &names(3));
    let sites = read_all_packed(&mut reader, &file);
    assert_eq!(sites.len(), 3);
    assert_eq!(sites[1].genotypes, vec![Missing, Ref, Ref]);

    let keep: HashSet<usize> = [2].into_iter().collect();
    let mut reader = PackedAncestryMapReader::open(names(3), 3, &file, None, Some(keep)).unwrap();
    assert_eq!(reader.n_sites(), 1);
    let sites = read_all_packed(&mut reader, &file);
    assert_eq!(sites.len(), 1);
    assert_eq!(sites[0].genotypes, vec![Alt, Alt, Alt]);
}

#[test]
fn packed_reader_checks_counts_and_indices() {
    let variants = vec![vec![REF, ALT], vec![HET, HET]];
    let file = geno_file(&variants);
    assert_eq!(
        PackedAncestryMapReader::open(names(3), 2, &file, None, None).err(),
        Some(CustomError::PackedAncestryMapNAgreement { n_header: 2, n_ind: 3 })
    );
    assert_eq!(
        PackedAncestryMapReader::open(names(2), 5, &file, None, None).err(),
        Some(CustomError::PackedAncestryMapVAgreement { n_header: 2, n_snp: 5 })
    );
    assert_eq!(
        PackedAncestryMapReader::open(names(2), 2, &file[..20], None, None).err(),
        Some(CustomError::PackedAncestryMapFileSize)
    );
    let one = geno_file(&[vec![REF]]);
    assert_eq!(
        PackedAncestryMapReader::open(names(1), 1, &one, None, None).err(),
        Some(CustomError::SampleCount { n_samples: 1 })
    );
    let keep: HashSet<usize> = [9, 1, 4].into_iter().collect();
    assert_eq!(
        PackedAncestryMapReader::open(names(2), 2, &file, None, Some(keep)).err(),
        Some(CustomError::VariantIndexHigh { idx: 5, n_variants: 2 })
    );
}

#[test]
fn smallest_bad_index_is_found() {
    let keep: HashSet<usize> = [9, 5, 7, 1].into_iter().collect();
    assert_eq!(first_out_of_range(&keep, 5), Some(5));
    assert_eq!(first_out_of_range(&keep, 10), None);
}

#[test]
fn packed_file_end_to_end() {
    let mut variants = Vec::new();
    for _ in 0..14_999 {
        variants.push(vec![REF, ALT, ALT, ALT]);
    }
    for _ in 0..15_001 {
        variants.push(vec![HET, HET, HET, HET]);
    }
    variants.push(vec![ALT, ALT, ALT, ALT]);
    variants.push(vec![MISSING, ALT, ALT, ALT]);
    let file = geno_file(&variants);
    let mut reader = PackedAncestryMapReader::open(names(4), variants.len(), &file, None, None).unwrap();
    let mut counts = Counts::new(reader.samples().clone(), None);
    for site in read_all_packed(&mut reader, &file) {
        counts.add_site(&site);
    }
    assert_eq!(counts.overlap(0, 1), 30_001);
    assert_eq!(counts.mismatch_count(0, 1), 14_999 * 2 + 15_001);
    assert_eq!(counts.overlap(1, 2), 30_002);
    assert_eq!(counts.mismatch_rate(1, 2), Some((15_001, 60_004)));
}

#[test]
fn transposed_reader_gathers_each_variant() {
    let variants = vec![
        vec![REF, ALT, HET],
        vec![MISSING, REF, REF],
        vec![ALT, ALT, ALT],
        vec![HET, MISSING, REF],
        vec![REF, REF, ALT],
    ];
    let file = tgeno_file(&variants);
    let mut reader = TransposedPackedAncestryMapReader::open(names(3), 5, file.clone(), None, None).unwrap();
    assert_eq!(reader.genotypes_for_variant(4), vec![Ref, Ref, Alt]);
    let mut sites = Vec::new();
    while let Some(site) = reader.next() {
        sites.push(site.genotypes);
    }
    assert_eq!(sites.len(), 5);
    assert_eq!(sites[3], vec![Het, Missing, Ref]);
    assert!(reader.next().is_none());

    let keep: HashSet<usize> = [1, 3].into_iter().collect();
    let mut reader = TransposedPackedAncestryMapReader::open(names(3), 5, file.clone(), None, Some(keep)).unwrap();
    assert_eq!(reader.n_sites(), 2);
    assert_eq!(reader.next().unwrap().genotypes, vec![Missing, Ref, Ref]);
    assert_eq!(reader.next().unwrap().genotypes, vec![Het, Missing, Ref]);
    assert!(reader.next().is_none());
}

#[test]
fn transposed_reader_rejects_trailing_bytes() {
    let variants = vec![vec![REF, ALT], vec![HET, HET]];
    let mut file = tgeno_file(&variants);
    file.push(0);
    assert_eq!(
        TransposedPackedAncestryMapReader::open(names(2), 2, file, None, None).err(),
        Some(CustomError::PackedAncestryMapFileSize)
    );
    let keep: HashSet<usize> = [2].into_iter().collect();
    assert_eq!(
        TransposedPackedAncestryMapReader::open(names(2), 2, tgeno_file(&variants), None, Some(keep)).err(),
        Some(CustomError::VariantIndexHigh { idx: 3, n_variants: 2 })
    );
}

fn lines(v: &[&str]) -> Vec<String> {
    v.iter().map(|s| s.to_string()).collect()
}

#[test]
fn ind_and_snp_lines_are_checked() {
    let ind = lines(&["Sample1 M 0", "  Sample2\tF Pop "]);
    assert_eq!(read_eigenstrat_ind(&ind).unwrap(), lines(&["Sample1", "Sample2"]));
    assert_eq!(
        read_eigenstrat_ind(&lines(&["A M 0", "B M"])),
        Err(CustomError::EigenstratIndFields { line_num: 2, n_fields: 2, expected: 3 })
    );
    assert_eq!(read_eigenstrat_snp(&lines(&["rs1 1 0.0 1 A G", "rs2 1 0.0 2 A G"])), Ok(2));
    assert_eq!(
        read_eigenstrat_snp(&lines(&["rs1 1 0.0 1 A"])),
        Err(CustomError::EigenstratSnpFields { line_num: 1, n_fields: 5, expected: 6 })
    );
}

#[test]
fn fam_and_bim_lines_are_checked() {
    let fam = lines(&["0 S1 0 0 1 -9", "F2 S2 0 0 2 -9"]);
    assert_eq!(read_plink_fam(&fam).unwrap(), lines(&["S1", "F2:S2"]));
    assert_eq!(
        read_plink_fam(&lines(&["0 S1 0 0 1"])),
        Err(CustomError::PlinkFamFields { line_num: 1, n_fields: 5, expected: 6 })
    );
    assert_eq!(count_plink_bim(&lines(&["1 rs1 0 1 A G"])), Ok(1));
    assert_eq!(
        count_plink_bim(&lines(&["1 rs1 0 1 A G", ""])),
        Err(CustomError::PlinkBimFields { line_num: 2, n_fields: 0, expected: 6 })
    );
}

#[test]
fn plink_reader_validates_and_decodes() {
    let start = [0x6c, 0x1b, 0x01];
    let samples = lines(&["A", "B", "C", "D", "E"]);
    assert_eq!(
        PlinkBedReader::open(samples.clone(), 2, &[0x6c, 0x1c, 0x01], 7, None, None).err(),
        Some(CustomError::PlinkBedHeaderMagic)
    );
    assert_eq!(
        PlinkBedReader::open(samples.clone(), 2, &[0x6c, 0x1b, 0x00], 7, None, None).err(),
        Some(CustomError::PlinkBedMode)
    );
    assert_eq!(
        PlinkBedReader::open(samples.clone(), 2, &start, 8, None, None).err(),
        Some(CustomError::PlinkBedFileSize { expected: 7, found: 8 })
    );
    let mut reader = PlinkBedReader::open(samples.clone(), 2, &start, 7, Some(lines(&["D", "B"])), None).unwrap();
    assert_eq!(reader.samples(), &lines(&["B", "D"]));
    assert_eq!(reader.block_size(), 2);
    assert!(reader.wants_block());
    let site = reader.accept_block(&[0b11_10_01_00, 0b00]).unwrap();
    assert_eq!(site.genotypes, vec![Missing, Alt]);
    reader.poison();
    assert!(!reader.wants_block());
    assert_eq!(
        PlinkBedReader::open(samples, 2, &start, 7, Some(lines(&["Z"])), None).err(),
        Some(CustomError::SamplePairUnknownSample { sample: "Z".to_string() })
    );
}

#[test]
fn text_reader_checks_rows() {
    let mut reader = EigenstratReader::open(lines(&["A", "B", "C"]), 3, None, None).unwrap();
    assert_eq!(reader.n_sites(), 3);
    assert_eq!(reader.accept_line("2 0 9\n").unwrap().unwrap().genotypes, vec![Ref, Alt, Missing]);
    assert_eq!(
        reader.accept_line("21\n"),
        Err(CustomError::EigenstratGenoFields { line_num: 2, n_fields: 2, expected: 3 })
    );
    assert!(!reader.wants_line());

    let keep: HashSet<usize> = [1].into_iter().collect();
    let mut reader = EigenstratReader::open(lines(&["A", "B", "C"]), 3, Some(lines(&["C"])), Some(keep)).unwrap();
    assert_eq!(reader.samples(), &lines(&["C"]));
    assert_eq!(reader.accept_line("not checked"), Ok(None));
    assert_eq!(reader.accept_line("121").unwrap().unwrap().genotypes, vec![Het]);
    assert_eq!(reader.at_eof(), CustomError::EigenstratGenoVariantCount { expected: 3, found: 2 });

    let mut reader = EigenstratReader::open(lines(&["A", "B"]), 1, None, None).unwrap();
    assert_eq!(reader.accept_line("2x"), Err(CustomError::EigenstratGenoCode { line_num: 1 }));
    assert_eq!(
        EigenstratReader::open(lines(&["A", "B"]), 0, None, None).err(),
        Some(CustomError::VariantCount { n_variants: 0 })
    );
}

#[test]
fn packed_readers_keep_requested_samples() {
    let variants = vec![vec![REF, ALT, HET], vec![MISSING, REF, ALT]];
    let file = geno_file(&variants);
    let keep = vec!["Sample3".to_string(), "Sample1".to_string()];
    let mut reader = PackedAncestryMapReader::open(names(3), 2, &file, Some(keep.clone()), None).unwrap();
    assert_eq!(reader.samples(), &vec!["Sample1".to_string(), "Sample3".to_string()]);
    let sites = read_all_packed(&mut reader, &file);
    assert_eq!(sites[0].genotypes, vec![Ref, Het]);
    assert_eq!(sites[1].genotypes, vec![Missing, Alt]);
    assert_eq!(parse_variant_block(&file[48..96], 3, Some(&vec![2, 0])), vec![Het, Ref]);

    let tfile = tgeno_file(&variants);
    let mut reader = TransposedPackedAncestryMapReader::open(names(3), 2, tfile.clone(), Some(keep), None).unwrap();
    assert_eq!(reader.next().unwrap().genotypes, vec![Ref, Het]);
    assert_eq!(reader.next().unwrap().genotypes, vec![Missing, Alt]);
    assert_eq!(
        TransposedPackedAncestryMapReader::open(names(3), 2, tfile, Some(vec!["Nobody".to_string()]), None).err(),
        Some(CustomError::SamplePairUnknownSample { sample: "Nobody".to_string() })
    );
}

#[test]
fn format_is_told_by_first_bytes() {
    assert_eq!(geno_format(b"TGENO 2 3"), GenoFormat::Transposed);
    assert_eq!(geno_format(b"GENO 2 3"), GenoFormat::Packed);
    assert_eq!(geno_format(b"GEN"), GenoFormat::Text);
    assert_eq!(geno_format(b"0129\n"), GenoFormat::Text);
}
