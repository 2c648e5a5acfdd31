use agentero::venues::{acl, cvf, ecva, ijcai, neurips, openreview, pmlr, springer, usenix, venue_pdf_url};


#[test]
fn derives_pdf_from_landing_page() {
    assert_eq!(
        acl::pdf_url("https://aclanthology.org/2026.acl-long.1248/"),
        Some("https://aclanthology.org/2026.acl-long.1248.pdf".to_string())
    );
    assert_eq!(
        acl::pdf_url("https://aclanthology.org/2026.acl-long.1248.pdf"),
        Some("https://aclanthology.org/2026.acl-long.1248.pdf".to_string())
    );
    assert_eq!(
        acl::pdf_url("https://www.aclanthology.org/2025.emnlp-main.42/"),
        Some("https://www.aclanthology.org/2025.emnlp-main.42.pdf".to_string())
    );
}

#[test]
fn acl_rejects_non_paper_pages() {
    assert!(acl::pdf_url("https://aclanthology.org/venues/acl/").is_none());
    assert!(acl::pdf_url("https://example.com/2026.acl-long.1248/").is_none());
}


#[test]
fn cvf_derives_pdf_from_abstract_page() {
    assert_eq!(
        cvf::pdf_url("https://openaccess.thecvf.com/content/CVPR2024/html/Zeng_Unmixing_Diffusion_for_Self-Supervised_Hyperspectral_Image_Denoising_CVPR_2024_paper.html"),
        Some("https://openaccess.thecvf.com/content/CVPR2024/papers/Zeng_Unmixing_Diffusion_for_Self-Supervised_Hyperspectral_Image_Denoising_CVPR_2024_paper.pdf".to_string())
    );
    assert_eq!(
        cvf::pdf_url("https://openaccess.thecvf.com/content/ICCV2023/html/Chen_Title_ICCV_2023_paper.html"),
        Some("https://openaccess.thecvf.com/content/ICCV2023/papers/Chen_Title_ICCV_2023_paper.pdf".to_string())
    );
}

#[test]
fn cvf_rejects_non_paper_pages() {
    assert!(cvf::pdf_url("https://openaccess.thecvf.com/CVPR2024?day=all").is_none());
    assert!(
        cvf::pdf_url("https://openaccess.thecvf.com/content/CVPR2024/html/author.html").is_none()
    );
    assert!(cvf::pdf_url("https://example.com/content/CVPR2024/html/a_paper.html").is_none());
}


#[test]
fn ecva_derives_pdf_from_paper_page() {
    assert_eq!(
        ecva::pdf_url("https://www.ecva.net/papers/eccv_2024/papers_ECCV/html/4_ECCV_2024_paper.php"),
        Some("https://www.ecva.net/papers/eccv_2024/papers_ECCV/papers/00004.pdf".to_string())
    );
    assert_eq!(
        ecva::pdf_url(
            "https://www.ecva.net/papers/eccv_2024/papers_ECCV/html/1234_ECCV_2024_paper.php"
        ),
        Some("https://www.ecva.net/papers/eccv_2024/papers_ECCV/papers/01234.pdf".to_string())
    );
}

#[test]
fn ecva_rejects_non_paper_pages() {
    assert!(ecva::pdf_url("https://www.ecva.net/papers.php").is_none());
    assert!(ecva::pdf_url(
        "https://example.com/papers/eccv_2024/papers_ECCV/html/4_ECCV_2024_paper.php"
    )
    .is_none());
}


#[test]
fn ijcai_derives_pdf_from_paper_page() {
    assert_eq!(
        ijcai::pdf_url("https://www.ijcai.org/proceedings/2025/1"),
        Some("https://www.ijcai.org/proceedings/2025/0001.pdf".to_string())
    );
    assert_eq!(
        ijcai::pdf_url("https://www.ijcai.org/proceedings/2024/738"),
        Some("https://www.ijcai.org/proceedings/2024/0738.pdf".to_string())
    );
}

#[test]
fn ijcai_passes_through_existing_pdf() {
    assert_eq!(
        ijcai::pdf_url("https://www.ijcai.org/proceedings/2024/0123.pdf"),
        Some("https://www.ijcai.org/proceedings/2024/0123.pdf".to_string())
    );
}

#[test]
fn ijcai_rejects_non_paper_pages() {
    assert!(ijcai::pdf_url("https://www.ijcai.org/proceedings/2024").is_none());
    assert!(ijcai::pdf_url("https://example.org/proceedings/2024/1").is_none());
}


#[test]
fn dispatches_each_venue() {
    assert_eq!(
        venue_pdf_url("https://aclanthology.org/2026.acl-long.1248/"),
        Some("https://aclanthology.org/2026.acl-long.1248.pdf".to_string())
    );
    assert_eq!(
        venue_pdf_url("https://www.usenix.org/conference/atc24/presentation/liu-qingyuan"),
        Some("https://www.usenix.org/system/files/atc24-liu-qingyuan.pdf".to_string())
    );
    assert_eq!(
        venue_pdf_url("https://proceedings.mlr.press/v235/abad-rocamora24a.html"),
        Some("https://raw.githubusercontent.com/mlresearch/v235/main/assets/abad-rocamora24a/abad-rocamora24a.pdf".to_string())
    );
    assert_eq!(venue_pdf_url("https://example.com/paper"), None);
}


#[test]
fn neurips_derives_pdf_from_abstract_page() {
    assert_eq!(
        neurips::pdf_url("https://proceedings.neurips.cc/paper_files/paper/2023/hash/0001ca33ba34ce0351e4612b744b3936-Abstract-Conference.html"),
        Some("https://proceedings.neurips.cc/paper_files/paper/2023/file/0001ca33ba34ce0351e4612b744b3936-Paper-Conference.pdf".to_string())
    );
    assert_eq!(
        neurips::pdf_url("https://papers.nips.cc/paper/2020/hash/1cf0f9f6b6b1603a4d7ba2c34334d0f0-Abstract.html"),
        Some("https://papers.nips.cc/paper/2020/file/1cf0f9f6b6b1603a4d7ba2c34334d0f0-Paper.pdf".to_string())
    );
    assert_eq!(
        neurips::pdf_url("https://proceedings.neurips.cc/paper_files/paper/2023/hash/0001ca33ba34ce0351e4612b744b3936-Abstract-Datasets_and_Benchmarks_Track.html"),
        Some("https://proceedings.neurips.cc/paper_files/paper/2023/file/0001ca33ba34ce0351e4612b744b3936-Paper-Datasets_and_Benchmarks_Track.pdf".to_string())
    );
}

#[test]
fn neurips_passes_through_existing_pdf() {
    assert_eq!(
        neurips::pdf_url("https://proceedings.neurips.cc/paper_files/paper/2023/file/0001ca33ba34ce0351e4612b744b3936-Paper-Conference.pdf"),
        Some("https://proceedings.neurips.cc/paper_files/paper/2023/file/0001ca33ba34ce0351e4612b744b3936-Paper-Conference.pdf".to_string())
    );
}

#[test]
fn rejects_non_abstract_pages() {
    assert!(neurips::pdf_url("https://proceedings.neurips.cc/paper_files/paper/2023").is_none());
    assert!(neurips::pdf_url("https://example.com/paper/2023/hash/x-Abstract.html").is_none());
}


#[test]
fn derives_pdf_from_forum() {
    assert_eq!(
        openreview::pdf_url("https://openreview.net/forum?id=KS8mIvetg2"),
        Some("https://openreview.net/pdf?id=KS8mIvetg2".to_string())
    );
}

#[test]
fn openreview_passes_through_existing_pdf() {
    assert_eq!(
        openreview::pdf_url("https://openreview.net/pdf?id=KS8mIvetg2"),
        Some("https://openreview.net/pdf?id=KS8mIvetg2".to_string())
    );
}

#[test]
fn rejects_non_forum_pages() {
    assert!(openreview::pdf_url("https://openreview.net/group?id=ICLR.cc/2024/Conference").is_none());
    assert!(openreview::pdf_url("https://example.com/forum?id=x").is_none());
}


#[test]
fn derives_same_domain_pdf_for_pre_v228() {
    assert_eq!(
        pmlr::pdf_url("https://proceedings.mlr.press/v70/achab17a.html"),
        Some("https://proceedings.mlr.press/v70/achab17a/achab17a.pdf".to_string())
    );
    assert_eq!(
        pmlr::pdf_url("https://proceedings.mlr.press/v216/abu-el-haija23a.html"),
        Some(
            "https://proceedings.mlr.press/v216/abu-el-haija23a/abu-el-haija23a.pdf"
                .to_string()
        )
    );
}

#[test]
fn derives_github_mirror_pdf_from_v228() {
    assert_eq!(
        pmlr::pdf_url("https://proceedings.mlr.press/v228/sanborn24a.html"),
        Some("https://raw.githubusercontent.com/mlresearch/v228/main/assets/sanborn24a/sanborn24a.pdf".to_string())
    );
    assert_eq!(
        pmlr::pdf_url("https://proceedings.mlr.press/v235/abad-rocamora24a.html"),
        Some("https://raw.githubusercontent.com/mlresearch/v235/main/assets/abad-rocamora24a/abad-rocamora24a.pdf".to_string())
    );
}

#[test]
fn pmlr_rejects_non_paper_pages() {
    assert!(pmlr::pdf_url("https://proceedings.mlr.press/v235/").is_none());
    assert!(pmlr::pdf_url("https://example.com/v235/a.html").is_none());
}


#[test]
fn derives_pdf_from_chapter_page() {
    assert_eq!(
        springer::pdf_url("https://link.springer.com/chapter/10.1007/978-3-031-83274-1_20"),
        Some(
            "https://link.springer.com/content/pdf/10.1007/978-3-031-83274-1_20.pdf"
                .to_string()
        )
    );
}

#[test]
fn derives_pdf_from_article_page() {
    assert_eq!(
        springer::pdf_url("https://link.springer.com/article/10.1007/s00521-024-09999-9"),
        Some(
            "https://link.springer.com/content/pdf/10.1007/s00521-024-09999-9.pdf".to_string()
        )
    );
}

#[test]
fn rejects_non_content_pages() {
    assert!(springer::pdf_url("https://link.springer.com/search?query=MICCAI").is_none());
    assert!(springer::pdf_url("https://link.springer.com/book/10.1007/978-3-031-71876-6").is_none());
    assert!(springer::pdf_url("https://example.com/chapter/10.1007/x").is_none());
}


#[test]
fn derives_pdf_from_presentation_page() {
    assert_eq!(
        usenix::pdf_url("https://www.usenix.org/conference/atc24/presentation/liu-qingyuan"),
        Some("https://www.usenix.org/system/files/atc24-liu-qingyuan.pdf".to_string())
    );
    assert_eq!(
        usenix::pdf_url("https://www.usenix.org/conference/osdi24/presentation/chen"),
        Some("https://www.usenix.org/system/files/osdi24-chen.pdf".to_string())
    );
}

#[test]
fn rejects_non_presentation_pages() {
    assert_eq!(
        usenix::pdf_url("https://www.usenix.org/system/files/atc24-liu-qingyuan.pdf"),
        None
    );
    assert_eq!(usenix::pdf_url("https://www.usenix.org/conference/atc24"), None);
}


#[test]
fn resolvers_match_the_host_only() {
    let url = "https://openreview.net/pdf?id=abc&next=https://aclanthology.org/2026.acl-long.1.pdf";
    assert_eq!(acl::pdf_url(url), None);
    assert_eq!(openreview::pdf_url(url), Some(url.to_string()));
    assert_eq!(venue_pdf_url(url), Some(url.to_string()));
    assert_eq!(acl::pdf_url("https://aclanthology.org.example.com/2026.acl-long.1248/"), None);
    assert_eq!(acl::pdf_url("https://notaclanthology.org/2026.acl-long.1248/"), None);
    assert_eq!(
        acl::pdf_url("https://www.aclanthology.org/2026.acl-long.1248/"),
        Some("https://www.aclanthology.org/2026.acl-long.1248.pdf".to_string())
    );
}

#[test]
fn acl_slug_needs_a_number() {
    assert_eq!(acl::pdf_url("https://aclanthology.org/2026.acl-long./"), None);
}
